//! Checks of the unsigned properties: time-stamps and revocation data.
use tsp_ltv::crypto::algorithm::DigestAlgorithm;
use tsp_ltv::trust::TrustStore;
use vstd::prelude::*;
use vstd::string::*;
use x509_cert::der::Decode;

use crate::chain;
use crate::chain::Trust;
use crate::codec;
use crate::ns;
use crate::text;
use crate::time;
use crate::time::{Time, TimeView};
use crate::x509;
use crate::x509::{Cert, CertView};
use crate::xml::input;
use crate::xml::input::C14nMethod;
use crate::xml::tree;
use crate::xml::tree::{Tree, TreeView};

verus! {

broadcast use crate::text::texts_push;

/// What the unsigned properties prove, and what is wrong with them.
pub struct LtvOutcome {
    /// Earliest time of a signature time-stamp that verified.
    pub timestamp_time: Option<Time>,
    /// Time at which the accepted OCSP response was produced.
    pub ocsp_produced_at: Option<Time>,
    /// Certificates that were found.
    pub pool: Vec<Cert>,
    pub errors: Vec<String>,
    pub warnings: Vec<String>,
}

/// The mathematical counterpart of [`LtvOutcome`].
pub struct LtvView {
    pub timestamp_time: Option<TimeView>,
    pub ocsp_produced_at: Option<TimeView>,
    pub pool: Seq<CertView>,
    pub errors: Seq<Seq<char>>,
    pub warnings: Seq<Seq<char>>,
}

impl View for LtvOutcome {
    type V = LtvView;

    open spec fn view(&self) -> LtvView {
        LtvView {
            timestamp_time: time::opt_time(self.timestamp_time),
            ocsp_produced_at: time::opt_time(self.ocsp_produced_at),
            pool: x509::cert_views(self.pool@),
            errors: text::texts(self.errors@),
            warnings: text::texts(self.warnings@),
        }
    }
}

/// The hash algorithms of time-stamps.
#[derive(Clone, Copy)]
pub enum HashAlgorithm {
    Sha256,
    Sha384,
    Sha512,
    Sha3_256,
    Sha3_384,
    Sha3_512,
}

impl HashAlgorithm {
    /// The usual name of the algorithm.
    pub open spec fn label(self) -> Seq<char> {
        match self {
            HashAlgorithm::Sha256 => "SHA-256"@,
            HashAlgorithm::Sha384 => "SHA-384"@,
            HashAlgorithm::Sha512 => "SHA-512"@,
            HashAlgorithm::Sha3_256 => "SHA3-256"@,
            HashAlgorithm::Sha3_384 => "SHA3-384"@,
            HashAlgorithm::Sha3_512 => "SHA3-512"@,
        }
    }
}

/// The hash of some bytes.
pub uninterp spec fn hashed(algorithm: Seq<char>, data: Seq<u8>) -> Seq<u8>;

/// `tsp_ltv`'s `DigestAlgorithm::digest`.
#[verifier::external_body]
pub(crate) fn hash(algorithm: HashAlgorithm, data: &[u8]) -> (r: Vec<u8>)
    ensures
        r@ == hashed(algorithm.label(), data@),
{
    match algorithm {
        HashAlgorithm::Sha256 => DigestAlgorithm::Sha256,
        HashAlgorithm::Sha384 => DigestAlgorithm::Sha384,
        HashAlgorithm::Sha512 => DigestAlgorithm::Sha512,
        HashAlgorithm::Sha3_256 => DigestAlgorithm::Sha3_256,
        HashAlgorithm::Sha3_384 => DigestAlgorithm::Sha3_384,
        HashAlgorithm::Sha3_512 => DigestAlgorithm::Sha3_512,
    }.digest(data)
}

/// The hash algorithm that a time-stamp token claims, or why it claims none.
pub uninterp spec fn token_algorithm(token: Seq<u8>) -> Result<Seq<char>, Seq<char>>;

/// An algorithm, or the failure as text.
pub open spec fn algorithm_view(r: Result<HashAlgorithm, String>) -> Result<Seq<char>, Seq<char>> {
    match r {
        Ok(a) => Ok(a.label()),
        Err(e) => Err(e@),
    }
}

/// `tsp_ltv::tsp::extract_tst_info`, as far as the hash algorithm.
#[verifier::external_body]
fn claimed_algorithm(token: &[u8]) -> (r: Result<HashAlgorithm, String>)
    ensures
        algorithm_view(r) == token_algorithm(token@),
{
    let info = tsp_ltv::tsp::extract_tst_info(token).map_err(|e| e.to_string())?;
    Ok(match info.hash_algorithm {
        DigestAlgorithm::Sha256 => HashAlgorithm::Sha256,
        DigestAlgorithm::Sha384 => HashAlgorithm::Sha384,
        DigestAlgorithm::Sha512 => HashAlgorithm::Sha512,
        DigestAlgorithm::Sha3_256 => HashAlgorithm::Sha3_256,
        DigestAlgorithm::Sha3_384 => HashAlgorithm::Sha3_384,
        DigestAlgorithm::Sha3_512 => HashAlgorithm::Sha3_512,
    })
}

/// The time field of a time-stamp token over a hash whose signer chains to an anchor; or why the
/// token does not verify.
pub uninterp spec fn verified_token(
    token: Seq<u8>,
    hash: Seq<u8>,
    algorithm: Seq<char>,
    anchors: Seq<Seq<u8>>,
    extra_certs: Seq<Seq<u8>>,
) -> Result<Seq<u8>, Seq<char>>;

/// `tsp_ltv::tsp::verify_timestamp_token` without a nonce, at the token's own time.
#[verifier::external_body]
fn verify_token(
    token: &[u8],
    hash: &[u8],
    algorithm: HashAlgorithm,
    trust: &TrustStore,
    extra_certs: &Vec<Vec<u8>>,
) -> (r: Result<Vec<u8>, String>)
    requires
        chain::is_strict(*trust),
    ensures
        text::bytes_view(r) == verified_token(
            token@,
            hash@,
            algorithm.label(),
            chain::anchors(*trust),
            text::byte_strings(extra_certs@),
        ),
{
    let certs = extra_certs.iter().map(|der| x509_cert::Certificate::from_der(der))
        .collect::<Result<Vec<_>, _>>().map_err(|e| e.to_string())?;
    let hashed_by = match algorithm {
        HashAlgorithm::Sha256 => DigestAlgorithm::Sha256,
        HashAlgorithm::Sha384 => DigestAlgorithm::Sha384,
        HashAlgorithm::Sha512 => DigestAlgorithm::Sha512,
        HashAlgorithm::Sha3_256 => DigestAlgorithm::Sha3_256,
        HashAlgorithm::Sha3_384 => DigestAlgorithm::Sha3_384,
        HashAlgorithm::Sha3_512 => DigestAlgorithm::Sha3_512,
    };
    tsp_ltv::tsp::verify_timestamp_token(token, hash, hashed_by, None, Some(trust), None, &certs)
        .map(|info| info.gen_time_der).map_err(|e| e.to_string())
}

/// The seconds since 1970 that a DER `GeneralizedTime` stands for, if it is one.
pub uninterp spec fn generalized_time(der: Seq<u8>) -> Option<int>;

/// `GeneralizedTime::from_der` of the `der` crate, which knows whole seconds only.
#[verifier::external_body]
fn parse_generalized_time(der: &[u8]) -> (r: Option<u64>)
    ensures
        time::opt_secs(r) == generalized_time(der@),
{
    x509_cert::der::asn1::GeneralizedTime::from_der(der)
        .ok()
        .map(|t| t.to_unix_duration().as_secs())
}

/// The time that the content of a `GeneralizedTime` stands for.
pub open spec fn content_time(content: Seq<u8>) -> Option<TimeView> {
    if content.len() > 127 {
        None
    } else {
        match generalized_time(codec::der_value(0x18, content)) {
            Some(secs) => if time::is_time(secs, 0) {
                Some(TimeView { secs, nanos: 0 })
            } else {
                None
            },
            None => None,
        }
    }
}

/// Reads the content of a `GeneralizedTime`.
fn gen_time_utc(content: &[u8]) -> (r: Option<Time>)
    ensures
        time::opt_time(r) == content_time(content@),
{
    if content.len() > 127 {
        return None;
    }
    let mut tlv: Vec<u8> = Vec::new();
    tlv.push(0x18);
    tlv.push(content.len() as u8);
    tlv.extend_from_slice(content);
    assert(tlv@ =~= codec::der_value(0x18, content@));
    match parse_generalized_time(tlv.as_slice()) {
        Some(secs) => if secs <= i64::MAX as u64 {
            Time::new(secs as i64, 0)
        } else {
            None
        },
        None => None,
    }
}

/// The time-stamp token inside a time-stamp.
pub open spec fn token_of(doc: TreeView, tst: int) -> Option<Seq<u8>> {
    match doc.child(tst, ns::XADES@, "EncapsulatedTimeStamp"@) {
        Some(n) => codec::embedded_base64(doc.text(n)),
        None => None,
    }
}

/// The canonicalization method that a time-stamp names.
pub open spec fn timestamp_method(doc: TreeView, tst: int) -> Result<Seq<char>, Seq<char>> {
    match doc.attribute_of(doc.child(tst, ns::DSIG@, "CanonicalizationMethod"@), "Algorithm"@) {
        Some(uri) => if C14nMethod::is_uri(uri) {
            Ok(uri)
        } else {
            Err("timestamp canonicalization: "@ + uri)
        },
        None => Ok(input::C14N@),
    }
}

/// What a time-stamp covers: the canonical form of the signature value.
pub open spec fn timestamped_bytes(doc: TreeView, sig: int, method: Seq<char>) -> Result<
    Seq<u8>,
    Seq<char>,
> {
    match doc.child(sig, ns::DSIG@, "SignatureValue"@) {
        None => Err("signature has no SignatureValue"@),
        Some(value) => match doc.canonical(value, method) {
            None => Err("SignatureValue canonicalization failed"@),
            Some(bytes) => Ok(bytes),
        },
    }
}

/// The time that a token over some bytes proves, or why it proves none.
pub open spec fn token_outcome(
    token: Seq<u8>,
    covered: Seq<u8>,
    anchors: Seq<Seq<u8>>,
    extra_certs: Seq<Seq<u8>>,
) -> Result<TimeView, Seq<char>> {
    match token_algorithm(token) {
        Err(e) => Err("timestamp token does not parse: "@ + e),
        Ok(algorithm) => match verified_token(
            token,
            hashed(algorithm, covered),
            algorithm,
            anchors,
            extra_certs,
        ) {
            Err(e) => Err("signature timestamp invalid: "@ + e),
            Ok(content) => match content_time(content) {
                None => Err("timestamp genTime does not parse"@),
                Some(t) => Ok(t),
            },
        },
    }
}

/// The time that a time-stamp proves, or why it proves none.
pub open spec fn timestamp_outcome(
    doc: TreeView,
    sig: int,
    tst: int,
    anchors: Seq<Seq<u8>>,
    extra_certs: Seq<Seq<u8>>,
) -> Result<TimeView, Seq<char>> {
    match token_of(doc, tst) {
        None => Err("SignatureTimeStamp has no usable EncapsulatedTimeStamp"@),
        Some(token) => match timestamp_method(doc, tst) {
            Err(e) => Err(e),
            Ok(method) => match timestamped_bytes(doc, sig, method) {
                Err(e) => Err(e),
                Ok(covered) => token_outcome(token, covered, anchors, extra_certs),
            },
        },
    }
}

/// A time, or the failure as text.
pub open spec fn time_view(r: Result<Time, String>) -> Result<TimeView, Seq<char>> {
    match r {
        Ok(t) => Ok(t@),
        Err(e) => Err(e@),
    }
}

/// Decodes the base64 content of an element.
fn decode_b64_element(doc: &Tree, node: usize) -> (r: Option<Vec<u8>>)
    ensures
        text::opt_bytes(r) == codec::embedded_base64(doc@.text(node as int)),
{
    codec::decode_b64(doc.text(node).as_str())
}

/// Verifies a token over some bytes.
fn check_token(
    token: &[u8],
    covered: &[u8],
    trust: &Trust,
    extra_certs: &Vec<Vec<u8>>,
) -> (r: Result<Time, String>)
    ensures
        time_view(r) == token_outcome(
            token@,
            covered@,
            trust@,
            text::byte_strings(extra_certs@),
        ),
{
    let algorithm = match claimed_algorithm(token) {
        Ok(a) => a,
        Err(e) => {
            return Err(text::joined("timestamp token does not parse: ", e.as_str()));
        },
    };
    let expected_hash = hash(algorithm, covered);
    match verify_token(token, expected_hash.as_slice(), algorithm, trust.store(), extra_certs) {
        Err(e) => Err(text::joined("signature timestamp invalid: ", e.as_str())),
        Ok(content) => match gen_time_utc(content.as_slice()) {
            Some(t) => Ok(t),
            None => Err("timestamp genTime does not parse".to_owned()),
        },
    }
}

/// Verifies one signature time-stamp.
fn verify_signature_timestamp(
    doc: &Tree,
    sig_node: usize,
    tst_node: usize,
    trust: &Trust,
    extra_certs: &Vec<Vec<u8>>,
) -> (r: Result<Time, String>)
    ensures
        time_view(r) == timestamp_outcome(
            doc@,
            sig_node as int,
            tst_node as int,
            trust@,
            text::byte_strings(extra_certs@),
        ),
{
    let token = match doc.child(tst_node, ns::XADES, "EncapsulatedTimeStamp") {
        Some(n) => decode_b64_element(doc, n),
        None => None,
    };
    let token = match token {
        Some(t) => t,
        None => {
            return Err("SignatureTimeStamp has no usable EncapsulatedTimeStamp".to_owned());
        },
    };
    let named = match doc.child(tst_node, ns::DSIG, "CanonicalizationMethod") {
        Some(n) => doc.attribute(n, "Algorithm"),
        None => None,
    };
    let method = match named {
        Some(uri) => match C14nMethod::from_uri(uri) {
            Some(m) => m,
            None => {
                return Err(text::joined("timestamp canonicalization: ", uri));
            },
        },
        None => C14nMethod::Inclusive,
    };
    let sig_value = match doc.child(sig_node, ns::DSIG, "SignatureValue") {
        Some(n) => n,
        None => {
            return Err("signature has no SignatureValue".to_owned());
        },
    };
    let covered = match doc.canonicalize(sig_value, method) {
        Some(c) => c,
        None => {
            return Err("SignatureValue canonicalization failed".to_owned());
        },
    };
    check_token(token.as_slice(), covered.as_slice(), trust, extra_certs)
}

/// The certificate that an element holds, if it holds one.
pub open spec fn embedded_certificate(doc: TreeView, node: int) -> Option<CertView> {
    match codec::embedded_base64(doc.text(node)) {
        Some(der) => match x509::certificate(der) {
            Ok(cert) => Some(cert),
            Err(_) => None,
        },
        None => None,
    }
}

/// The certificates that some elements hold.
pub open spec fn embedded_pool(doc: TreeView, nodes: Seq<int>) -> Seq<CertView>
    decreases nodes.len(),
{
    if nodes.len() == 0 {
        Seq::empty()
    } else {
        match embedded_certificate(doc, nodes.last()) {
            Some(cert) => embedded_pool(doc, nodes.drop_last()).push(cert),
            None => embedded_pool(doc, nodes.drop_last()),
        }
    }
}

/// One error for each element that holds no certificate.
pub open spec fn embedded_errors(doc: TreeView, nodes: Seq<int>) -> Seq<Seq<char>>
    decreases nodes.len(),
{
    if nodes.len() == 0 {
        Seq::empty()
    } else {
        match embedded_certificate(doc, nodes.last()) {
            Some(cert) => embedded_errors(doc, nodes.drop_last()),
            None => embedded_errors(doc, nodes.drop_last()).push(
                "unparseable encapsulated certificate"@,
            ),
        }
    }
}

/// Reads the certificate that an element holds.
fn read_certificate(doc: &Tree, node: usize) -> (r: Option<Cert>)
    ensures
        match r {
            Some(c) => embedded_certificate(doc@, node as int) == Some(c@),
            None => embedded_certificate(doc@, node as int) is None,
        },
{
    match decode_b64_element(doc, node) {
        Some(der) => match x509::parse_certificate(der.as_slice()) {
            Ok(cert) => Some(cert),
            Err(_) => None,
        },
        None => None,
    }
}

/// Reads the certificates that some elements hold.
fn read_certificates(doc: &Tree, nodes: &Vec<usize>) -> (r: (Vec<Cert>, Vec<String>))
    ensures
        x509::cert_views(r.0@) == embedded_pool(doc@, tree::places(nodes@)),
        text::texts(r.1@) == embedded_errors(doc@, tree::places(nodes@)),
{
    let ghost all = tree::places(nodes@);
    let mut pool: Vec<Cert> = Vec::new();
    let mut errors: Vec<String> = Vec::new();
    let mut i: usize = 0;
    assert(all.take(0) =~= Seq::<int>::empty());
    assert(x509::cert_views(pool@) =~= Seq::<CertView>::empty());
    assert(text::texts(errors@) =~= Seq::<Seq<char>>::empty());
    while i < nodes.len()
        invariant
            i <= nodes@.len(),
            all == tree::places(nodes@),
            x509::cert_views(pool@) == embedded_pool(doc@, all.take(i as int)),
            text::texts(errors@) == embedded_errors(doc@, all.take(i as int)),
        decreases nodes@.len() - i,
    {
        proof {
            assert(all.take(i + 1).drop_last() =~= all.take(i as int));
            assert(all.take(i + 1).last() == nodes@[i as int] as int);
        }
        match read_certificate(doc, nodes[i]) {
            Some(cert) => {
                proof {
                    x509::lemma_cert_views_push(pool@, cert);
                }
                pool.push(cert);
            },
            None => {
                errors.push("unparseable encapsulated certificate".to_owned());
            },
        }
        i += 1;
    }
    assert(all.take(i as int) =~= all);
    (pool, errors)
}

/// What each of some time-stamps proves.
pub open spec fn timestamp_outcomes(
    doc: TreeView,
    sig: int,
    nodes: Seq<int>,
    anchors: Seq<Seq<u8>>,
    extra_certs: Seq<Seq<u8>>,
) -> Seq<Result<TimeView, Seq<char>>> {
    nodes.map_values(|tst: int| timestamp_outcome(doc, sig, tst, anchors, extra_certs))
}

/// The earliest time that is proved.
pub open spec fn earliest(outcomes: Seq<Result<TimeView, Seq<char>>>) -> Option<TimeView>
    decreases outcomes.len(),
{
    if outcomes.len() == 0 {
        None
    } else {
        match outcomes.last() {
            Err(_) => earliest(outcomes.drop_last()),
            Ok(t) => match earliest(outcomes.drop_last()) {
                None => Some(t),
                Some(e) => Some(e.earlier(t)),
            },
        }
    }
}

/// One warning for each failure.
pub open spec fn failure_warnings(outcomes: Seq<Result<TimeView, Seq<char>>>) -> Seq<Seq<char>>
    decreases outcomes.len(),
{
    if outcomes.len() == 0 {
        Seq::empty()
    } else {
        match outcomes.last() {
            Ok(_) => failure_warnings(outcomes.drop_last()),
            Err(e) => failure_warnings(outcomes.drop_last()).push(
                "SignatureTimeStamp "@ + text::decimal(outcomes.len()) + (" did not verify: "@ + e),
            ),
        }
    }
}

/// The failures, one after the other.
pub open spec fn failure_summary(outcomes: Seq<Result<TimeView, Seq<char>>>) -> Seq<char>
    decreases outcomes.len(),
{
    if outcomes.len() == 0 {
        Seq::empty()
    } else {
        let before = failure_summary(outcomes.drop_last());
        match outcomes.last() {
            Ok(_) => before,
            Err(e) => (if failed(outcomes.drop_last()) {
                before + "; "@
            } else {
                before
            }) + ("#"@ + text::decimal(outcomes.len()) + (": "@ + e)),
        }
    }
}

/// Whether anything failed.
pub open spec fn failed(outcomes: Seq<Result<TimeView, Seq<char>>>) -> bool {
    exists|i: int| 0 <= i < outcomes.len() && (#[trigger] outcomes[i]) is Err
}

/// What is wrong with the signature time-stamps.
pub open spec fn timestamp_errors(outcomes: Seq<Result<TimeView, Seq<char>>>) -> Seq<Seq<char>> {
    if outcomes.len() == 0 {
        seq!["missing SignatureTimeStamp"@]
    } else if earliest(outcomes) is None {
        seq!["no SignatureTimeStamp verified ("@ + failure_summary(outcomes) + ")"@]
    } else {
        Seq::empty()
    }
}

/// What is odd about the signature time-stamps: those that fail while others verify.
pub open spec fn timestamp_warnings(outcomes: Seq<Result<TimeView, Seq<char>>>) -> Seq<Seq<char>> {
    if earliest(outcomes) is None {
        Seq::empty()
    } else {
        failure_warnings(outcomes)
    }
}

/// The earliest proved time is one of the proved times, and none is before it.
pub proof fn earliest_is_the_minimum(outcomes: Seq<Result<TimeView, Seq<char>>>)
    ensures
        earliest(outcomes) matches Some(t) ==> {
            &&& exists|i: int| 0 <= i < outcomes.len() && #[trigger] outcomes[i] == Ok::<
                TimeView,
                Seq<char>,
            >(t)
            &&& forall|i: int|
                0 <= i < outcomes.len() && (#[trigger] outcomes[i]) is Ok ==> !(
                outcomes[i]->Ok_0).before(t)
        },
        earliest(outcomes) is None ==> forall|i: int|
            0 <= i < outcomes.len() ==> (#[trigger] outcomes[i]) is Err,
    decreases outcomes.len(),
{
    if outcomes.len() > 0 {
        let front = outcomes.drop_last();
        earliest_is_the_minimum(front);
        assert(forall|i: int| 0 <= i < front.len() ==> front[i] == outcomes[i]);
        let last = outcomes[outcomes.len() - 1];
        if let Some(t) = earliest(outcomes) {
            if last != Ok::<TimeView, Seq<char>>(t) {
                let k = choose|k: int|
                    0 <= k < front.len() && #[trigger] front[k] == Ok::<TimeView, Seq<char>>(t);
                assert(outcomes[k] == Ok::<TimeView, Seq<char>>(t));
            }
        }
    }
}

/// Times, or failures as text.
pub open spec fn time_views(results: Seq<Result<Time, String>>) -> Seq<
    Result<TimeView, Seq<char>>,
> {
    results.map_values(|r: Result<Time, String>| time_view(r))
}

/// What the signature time-stamps prove together, and what is wrong with them.
pub struct Timestamps {
    /// The earliest time that is proved.
    pub earliest: Option<Time>,
    pub errors: Vec<String>,
    pub warnings: Vec<String>,
}

/// Judges the signature time-stamps by what each of them proves.
///
/// One that verifies is enough; the others are then worth a warning.
pub fn judge_timestamps(results: &Vec<Result<Time, String>>) -> (r: Timestamps)
    ensures
        time::opt_time(r.earliest) == earliest(time_views(results@)),
        text::texts(r.errors@) == timestamp_errors(time_views(results@)),
        text::texts(r.warnings@) == timestamp_warnings(time_views(results@)),
{
    let ghost all = time_views(results@);
    let mut first: Option<Time> = None;
    let mut failures: Vec<String> = Vec::new();
    let mut summary = String::new();
    let mut any_failed = false;
    let mut i: usize = 0;
    assert(all.take(0) =~= Seq::<Result<TimeView, Seq<char>>>::empty());
    assert(text::texts(failures@) =~= Seq::<Seq<char>>::empty());
    while i < results.len()
        invariant
            i <= results@.len(),
            all == time_views(results@),
            time::opt_time(first) == earliest(all.take(i as int)),
            text::texts(failures@) == failure_warnings(all.take(i as int)),
            summary@ == failure_summary(all.take(i as int)),
            any_failed == failed(all.take(i as int)),
        decreases results@.len() - i,
    {
        let ghost done = all.take(i as int);
        let ghost next = all.take(i + 1);
        proof {
            assert(next.drop_last() =~= done);
            assert(next.last() == time_view(results@[i as int]));
        }
        match &results[i] {
            Ok(t) => {
                first = match first {
                    None => Some(*t),
                    Some(e) => Some(e.earlier(*t)),
                };
                proof {
                    if failed(next) {
                        let k = choose|k: int| 0 <= k < next.len() && (#[trigger] next[k]) is Err;
                        assert(done[k] == next[k]);
                    }
                    if failed(done) {
                        let k = choose|k: int| 0 <= k < done.len() && (#[trigger] done[k]) is Err;
                        assert(done[k] == next[k]);
                    }
                }
            },
            Err(e) => {
                let number = text::decimal_text(i + 1);
                let reason = text::joined(" did not verify: ", e.as_str());
                failures.push(
                    text::joined3("SignatureTimeStamp ", number.as_str(), reason.as_str()),
                );
                let short = text::joined(": ", e.as_str());
                let entry = text::joined3("#", number.as_str(), short.as_str());
                if any_failed {
                    summary.append("; ");
                }
                summary.append(entry.as_str());
                any_failed = true;
                assert(next[i as int] is Err);
            },
        }
        i += 1;
    }
    assert(all.take(i as int) =~= all);
    assert(all.len() == results@.len());
    let mut errors: Vec<String> = Vec::new();
    let mut warnings: Vec<String> = Vec::new();
    assert(text::texts(warnings@) =~= Seq::<Seq<char>>::empty());
    if results.len() == 0 {
        errors.push("missing SignatureTimeStamp".to_owned());
    } else if first.is_none() {
        errors.push(text::joined3("no SignatureTimeStamp verified (", summary.as_str(), ")"));
    }
    if first.is_some() {
        warnings = failures;
    }
    assert(text::texts(errors@) =~= timestamp_errors(all));
    Timestamps { earliest: first, errors, warnings }
}

/// Verifies the signature time-stamps one by one.
fn verify_timestamps(
    doc: &Tree,
    sig_node: usize,
    nodes: &Vec<usize>,
    trust: &Trust,
    extra_certs: &Vec<Vec<u8>>,
) -> (r: Vec<Result<Time, String>>)
    ensures
        time_views(r@) == timestamp_outcomes(
            doc@,
            sig_node as int,
            tree::places(nodes@),
            trust@,
            text::byte_strings(extra_certs@),
        ),
{
    let ghost all = timestamp_outcomes(
        doc@,
        sig_node as int,
        tree::places(nodes@),
        trust@,
        text::byte_strings(extra_certs@),
    );
    let mut results: Vec<Result<Time, String>> = Vec::new();
    let mut i: usize = 0;
    while i < nodes.len()
        invariant
            i <= nodes@.len(),
            all == timestamp_outcomes(
                doc@,
                sig_node as int,
                tree::places(nodes@),
                trust@,
                text::byte_strings(extra_certs@),
            ),
            results@.len() == i,
            forall|k: int| 0 <= k < i ==> time_view(#[trigger] results@[k]) == all[k],
        decreases nodes@.len() - i,
    {
        results.push(verify_signature_timestamp(doc, sig_node, nodes[i], trust, extra_certs));
        i += 1;
    }
    assert(time_views(results@) =~= all);
    results
}

/// What an OCSP response says of a certificate: nothing for good, or the status in words; or why
/// the response does not count.
pub uninterp spec fn revocation_outcome(
    response: Seq<u8>,
    cert: Seq<u8>,
    issuer: Seq<u8>,
    nonce: Option<Seq<u8>>,
    secs: int,
    nanos: int,
) -> Result<Option<Seq<char>>, Seq<char>>;

/// A status, or the failure as text.
pub open spec fn status_view(r: Result<Option<String>, String>) -> Result<
    Option<Seq<char>>,
    Seq<char>,
> {
    match r {
        Ok(status) => Ok(text::opt_text(status)),
        Err(e) => Err(e@),
    }
}

/// `tsp_ltv::ltv::ocsp_check_revocation` at a given time: nothing for a certificate that is good
/// at that time, otherwise the status as `{:?}` shows it.
#[verifier::external_body]
fn revocation_status(
    response: &[u8],
    cert: &[u8],
    issuer: &[u8],
    nonce: Option<&[u8]>,
    secs: i64,
    nanos: u32,
) -> (r: Result<Option<String>, String>)
    requires
        time::is_time(secs as int, nanos as int),
    ensures
        status_view(r) == revocation_outcome(
            response@,
            cert@,
            issuer@,
            text::opt_slice(nonce),
            secs as int,
            nanos as int,
        ),
{
    let cert = x509_cert::Certificate::from_der(cert).map_err(|e| e.to_string())?;
    let issuer = x509_cert::Certificate::from_der(issuer).map_err(|e| e.to_string())?;
    let at = chrono::DateTime::from_timestamp(secs, nanos);
    match tsp_ltv::ltv::ocsp_check_revocation(response, &cert, &issuer, nonce, at) {
        Ok(tsp_ltv::ltv::ValidationStatus::Valid { .. }) => Ok(None),
        Ok(other) => Ok(Some(format!("{other:?}"))),
        Err(e) => Err(e.to_string()),
    }
}

/// Asks an OCSP response about a certificate, as of a point in time.
pub fn check_revocation(
    response: &[u8],
    cert: &Cert,
    issuer: &Cert,
    nonce: Option<&[u8]>,
    at: Time,
) -> (r: Result<Option<String>, String>)
    ensures
        status_view(r) == revocation_outcome(
            response@,
            cert@.der,
            issuer@.der,
            text::opt_slice(nonce),
            at@.secs,
            at@.nanos,
        ),
{
    let (secs, nanos) = at.parts();
    revocation_status(response, cert.der.as_slice(), issuer.der.as_slice(), nonce, secs, nanos)
}

/// When an OCSP response was produced, in seconds and nanoseconds, and the certificates that it
/// holds; nothing for bytes that are no response.
pub uninterp spec fn response_content(response: Seq<u8>) -> Option<((int, int), Seq<Seq<u8>>)>;

/// The content of an OCSP response.
pub open spec fn response_view(r: Option<((i64, u32), Vec<Vec<u8>>)>) -> Option<
    ((int, int), Seq<Seq<u8>>),
> {
    match r {
        Some((at, certs)) => Some(((at.0 as int, at.1 as int), text::byte_strings(certs@))),
        None => None,
    }
}

/// `tsp_ltv::ltv::parse_ocsp_response`, as far as its time and its certificates.
#[verifier::external_body]
fn parse_response(response: &[u8]) -> (r: Option<((i64, u32), Vec<Vec<u8>>)>)
    ensures
        response_view(r) == response_content(response@),
        r matches Some(content) ==> time::is_time(content.0.0 as int, content.0.1 as int),
{
    tsp_ltv::ltv::parse_ocsp_response(response).ok().map(|parsed| (
        (parsed.produced_at.timestamp(), parsed.produced_at.timestamp_subsec_nanos()),
        parsed.embedded_certs_der,
    ))
}

/// Those of some byte strings that are certificates.
pub open spec fn parseable(ders: Seq<Seq<u8>>) -> Seq<CertView>
    decreases ders.len(),
{
    if ders.len() == 0 {
        Seq::empty()
    } else {
        match x509::certificate(ders.last()) {
            Ok(cert) => parseable(ders.drop_last()).push(cert),
            Err(_) => parseable(ders.drop_last()),
        }
    }
}

/// Adds those of some byte strings to a pool that are certificates.
pub(crate) fn add_parseable(pool: &mut Vec<Cert>, ders: &Vec<Vec<u8>>)
    ensures
        x509::cert_views(final(pool)@) == x509::cert_views(old(pool)@) + parseable(
            text::byte_strings(ders@),
        ),
{
    let ghost all = text::byte_strings(ders@);
    let ghost before = x509::cert_views(pool@);
    let mut i: usize = 0;
    assert(all.take(0) =~= Seq::<Seq<u8>>::empty());
    assert(before =~= before + parseable(all.take(0)));
    while i < ders.len()
        invariant
            i <= ders@.len(),
            all == text::byte_strings(ders@),
            x509::cert_views(pool@) == before + parseable(all.take(i as int)),
        decreases ders@.len() - i,
    {
        proof {
            assert(all.take(i + 1).drop_last() =~= all.take(i as int));
            assert(all.take(i + 1).last() == ders@[i as int]@);
        }
        if let Ok(cert) = x509::parse_certificate(ders[i].as_slice()) {
            proof {
                x509::lemma_cert_views_push(pool@, cert);
            }
            pool.push(cert);
            assert(x509::cert_views(pool@) =~= before + parseable(all.take(i + 1)));
        }
        i += 1;
    }
    assert(all.take(i as int) =~= all);
}

/// The first of some certificates with a subject name.
pub open spec fn first_named(certs: Seq<CertView>, subject: Seq<u8>) -> Option<CertView>
    decreases certs.len(),
{
    if certs.len() == 0 {
        None
    } else if certs[0].subject == subject {
        Some(certs[0])
    } else {
        first_named(certs.skip(1), subject)
    }
}

/// Finds the first of some certificates with a subject name.
pub fn find_named<'a>(certs: &'a Vec<Cert>, subject: &[u8]) -> (r: Option<&'a Cert>)
    ensures
        match r {
            Some(c) => first_named(x509::cert_views(certs@), subject@) == Some(c@),
            None => first_named(x509::cert_views(certs@), subject@) is None,
        },
{
    let ghost all = x509::cert_views(certs@);
    let mut i: usize = 0;
    assert(all.skip(0) =~= all);
    while i < certs.len()
        invariant
            i <= certs@.len(),
            all == x509::cert_views(certs@),
            first_named(all, subject@) == first_named(all.skip(i as int), subject@),
        decreases certs@.len() - i,
    {
        assert(all.skip(i as int)[0] == certs@[i as int]@);
        if text::same_bytes(certs[i].subject.as_slice(), subject) {
            return Some(&certs[i]);
        }
        assert(all.skip(i as int).skip(1) =~= all.skip(i + 1));
        i += 1;
    }
    None
}

/// What is missing where no OCSP response is embedded.
pub open spec fn absence_errors(doc: TreeView, unsigned: int) -> Seq<Seq<char>> {
    match doc.child(unsigned, ns::XADES@, "RevocationValues"@) {
        None => Seq::empty(),
        Some(values) => if doc.child(values, ns::XADES@, "CRLValues"@) is Some {
            seq!["CRLs not supported"@]
        } else {
            seq!["missing OCSP response"@]
        },
    }
}

/// What is wrong with an OCSP response by the status that it gives, if anything is.
pub open spec fn status_finding(status: Result<Option<Seq<char>>, Seq<char>>) -> Option<Seq<char>> {
    match status {
        Ok(None) => None,
        Ok(Some(other)) => Some("revocation status: "@ + other),
        Err(e) => Some("OCSP response: "@ + e),
    }
}

/// Judges an OCSP response by the status that it gives.
pub fn judge_status(status: Result<Option<String>, String>) -> (r: Option<String>)
    ensures
        text::opt_text(r) == status_finding(status_view(status)),
{
    match status {
        Ok(None) => None,
        Ok(Some(other)) => Some(text::joined("revocation status: ", other.as_str())),
        Err(e) => Some(text::joined("OCSP response: ", e.as_str())),
    }
}

/// What an accepted OCSP response adds: its time, and certificates.
pub open spec fn accepted_response(response: Seq<u8>) -> (Option<TimeView>, Seq<CertView>) {
    match response_content(response) {
        Some((at, certs)) => (Some(TimeView { secs: at.0, nanos: at.1 }), parseable(certs)),
        None => (None, Seq::empty()),
    }
}

/// What is wrong with the certificates of an OCSP response that bear the issuer's name: each is the
/// issuer's own, or chains to an anchor.
pub open spec fn namesake_errors(
    found: Seq<CertView>,
    issuer: CertView,
    pool: Seq<Seq<u8>>,
    anchors: Seq<Seq<u8>>,
    at: TimeView,
) -> Seq<Seq<char>>
    decreases found.len(),
{
    if found.len() == 0 {
        Seq::empty()
    } else {
        let before = namesake_errors(found.drop_last(), issuer, pool, anchors, at);
        let last = found.last();
        if last.subject == issuer.subject && last.der != issuer.der {
            before + chain::responder_chain_errors(last.der, pool, anchors, at)
        } else {
            before
        }
    }
}

/// The certificates that the chain of an OCSP issuer may use: those at hand, and those of the
/// response itself.
pub open spec fn responder_pool(response: Seq<u8>, certs: Seq<CertView>) -> Seq<Seq<u8>> {
    x509::ders(certs + accepted_response(response).1)
}

/// What is wrong with the chains of those who may have signed an OCSP response as its issuer.
pub open spec fn responder_errors(
    response: Seq<u8>,
    issuer: CertView,
    certs: Seq<CertView>,
    anchors: Seq<Seq<u8>>,
    at: TimeView,
) -> Seq<Seq<char>> {
    let pool = responder_pool(response, certs);
    chain::responder_chain_errors(issuer.der, pool, anchors, at) + namesake_errors(
        accepted_response(response).1,
        issuer,
        pool,
        anchors,
        at,
    )
}

/// Where the certificates of an OCSP response raise no error, each that bears the issuer's name is
/// the issuer's own or chains to an anchor.
pub proof fn no_forged_namesake(
    found: Seq<CertView>,
    issuer: CertView,
    pool: Seq<Seq<u8>>,
    anchors: Seq<Seq<u8>>,
    at: TimeView,
)
    requires
        namesake_errors(found, issuer, pool, anchors, at).len() == 0,
    ensures
        forall|i: int|
            0 <= i < found.len() && (#[trigger] found[i]).subject == issuer.subject ==> found[i].der
                == issuer.der || chain::responder_chain_errors(
                found[i].der,
                pool,
                anchors,
                at,
            ).len() == 0,
    decreases found.len(),
{
    if found.len() > 0 {
        let front = found.drop_last();
        no_forged_namesake(front, issuer, pool, anchors, at);
        assert(forall|i: int| 0 <= i < front.len() ==> front[i] == found[i]);
    }
}

/// What one OCSP response proves: its time and its certificates where it is accepted, and what is
/// wrong with it. It is accepted where it calls the certificate good and its issuer chains to an
/// anchor.
pub open spec fn response_outcome(
    response: Seq<u8>,
    leaf: CertView,
    issuer: CertView,
    certs: Seq<CertView>,
    anchors: Seq<Seq<u8>>,
    at: TimeView,
) -> (Option<TimeView>, Seq<CertView>, Seq<Seq<char>>) {
    match status_finding(
        revocation_outcome(response, leaf.der, issuer.der, None, at.secs, at.nanos),
    ) {
        None => {
            let errors = responder_errors(response, issuer, certs, anchors, at);
            if errors.len() == 0 {
                (accepted_response(response).0, accepted_response(response).1, errors)
            } else {
                (None, Seq::empty(), errors)
            }
        },
        Some(error) => (None, Seq::empty(), seq![error]),
    }
}

/// What the embedded OCSP responses prove.
pub open spec fn revocation_data_outcome(
    doc: TreeView,
    unsigned: int,
    leaf: CertView,
    certs: Seq<CertView>,
    anchors: Seq<Seq<u8>>,
    at: TimeView,
) -> (Option<TimeView>, Seq<CertView>, Seq<Seq<char>>) {
    let nodes = doc.descendants(unsigned, ns::XADES@, "EncapsulatedOCSPValue"@);
    if nodes.len() == 0 {
        (None, Seq::empty(), absence_errors(doc, unsigned))
    } else {
        match first_named(certs, leaf.issuer) {
            None => (
                None,
                Seq::empty(),
                seq!["cannot verify OCSP: issuer certificate is missing"@],
            ),
            Some(issuer) => if nodes.len() > 1 {
                (None, Seq::empty(), seq!["multiple OCSP responses not supported"@])
            } else {
                match codec::embedded_base64(doc.text(nodes[0])) {
                    None => (
                        None,
                        Seq::empty(),
                        seq!["EncapsulatedOCSPValue is not valid base64"@],
                    ),
                    Some(response) => response_outcome(
                        response,
                        leaf,
                        issuer,
                        certs,
                        anchors,
                        at,
                    ),
                }
            },
        }
    }
}

/// What is wrong with the order of a time-stamp and an OCSP response.
pub open spec fn order_errors(timestamp: Option<TimeView>, ocsp: Option<TimeView>) -> Seq<
    Seq<char>,
> {
    match (timestamp, ocsp) {
        (Some(ts), Some(produced)) => if produced.before(ts) {
            seq![
                "OCSP proof ("@ + time::time_text(produced.secs, produced.nanos) + (
                ") predates the signature timestamp ("@ + time::time_text(ts.secs, ts.nanos)
                    + ")"@),
            ]
        } else {
            Seq::empty()
        },
        _ => Seq::empty(),
    }
}

/// What the unsigned properties prove, and what is wrong with them.
///
/// Revocation is checked as of the proved time of the signature, or else as of `now`.
pub open spec fn unsigned_outcome(
    doc: TreeView,
    sig: int,
    unsigned: int,
    leaf: CertView,
    extras: Seq<CertView>,
    anchors: Seq<Seq<u8>>,
    now: TimeView,
) -> LtvView {
    let cert_nodes = doc.descendants(unsigned, ns::XADES@, "EncapsulatedX509Certificate"@);
    let pool = embedded_pool(doc, cert_nodes);
    let stamps = timestamp_outcomes(
        doc,
        sig,
        doc.children(unsigned, ns::XADES@, "SignatureTimeStamp"@),
        anchors,
        x509::ders(pool),
    );
    let proved = earliest(stamps);
    let at = match proved {
        Some(t) => t,
        None => now,
    };
    let revocation = revocation_data_outcome(doc, unsigned, leaf, pool + extras, anchors, at);
    LtvView {
        timestamp_time: proved,
        ocsp_produced_at: revocation.0,
        pool: pool + revocation.1,
        errors: embedded_errors(doc, cert_nodes) + timestamp_errors(stamps) + revocation.2
            + order_errors(proved, revocation.0),
        warnings: timestamp_warnings(stamps),
    }
}

/// Looks into an accepted OCSP response.
fn read_response(response: &[u8], pool: &mut Vec<Cert>) -> (r: Option<Time>)
    ensures
        time::opt_time(r) == accepted_response(response@).0,
        x509::cert_views(final(pool)@) == x509::cert_views(old(pool)@) + accepted_response(
            response@,
        ).1,
{
    match parse_response(response) {
        Some(((secs, nanos), certs)) => {
            add_parseable(pool, &certs);
            Time::new(secs, nanos)
        },
        None => {
            assert(x509::cert_views(pool@) =~= x509::cert_views(old(pool)@) + Seq::<
                CertView,
            >::empty());
            None
        },
    }
}

/// What checking revocation data gives.
struct RevocationData {
    produced_at: Option<Time>,
    certs: Vec<Cert>,
    errors: Vec<String>,
}

impl RevocationData {
    spec fn is(self, outcome: (Option<TimeView>, Seq<CertView>, Seq<Seq<char>>)) -> bool {
        &&& time::opt_time(self.produced_at) == outcome.0
        &&& x509::cert_views(self.certs@) == outcome.1
        &&& text::texts(self.errors@) == outcome.2
    }
}

/// A finding that proves nothing.
fn only_error(error: String) -> (r: RevocationData)
    ensures
        r.is((None, Seq::empty(), seq![error@])),
{
    let mut errors: Vec<String> = Vec::new();
    errors.push(error);
    let certs: Vec<Cert> = Vec::new();
    assert(text::texts(errors@) =~= seq![error@]);
    assert(x509::cert_views(certs@) =~= Seq::<CertView>::empty());
    RevocationData { produced_at: None, certs, errors }
}

/// Chains those certificates of an OCSP response that bear the issuer's name.
fn check_namesakes(
    found: &Vec<Cert>,
    issuer: &Cert,
    certs: &Vec<Cert>,
    trust: &Trust,
    at: Time,
) -> (r: Vec<String>)
    ensures
        text::texts(r@) == namesake_errors(
            x509::cert_views(found@),
            issuer@,
            x509::ders(x509::cert_views(certs@)),
            trust@,
            at@,
        ),
{
    let ghost all = x509::cert_views(found@);
    let ghost pool = x509::ders(x509::cert_views(certs@));
    let mut errors: Vec<String> = Vec::new();
    let mut i: usize = 0;
    assert(all.take(0) =~= Seq::<CertView>::empty());
    assert(text::texts(errors@) =~= Seq::<Seq<char>>::empty());
    while i < found.len()
        invariant
            i <= found@.len(),
            all == x509::cert_views(found@),
            pool == x509::ders(x509::cert_views(certs@)),
            text::texts(errors@) == namesake_errors(
                all.take(i as int),
                issuer@,
                pool,
                trust@,
                at@,
            ),
        decreases found@.len() - i,
    {
        proof {
            assert(all.take(i + 1).drop_last() =~= all.take(i as int));
            assert(all.take(i + 1).last() == found@[i as int]@);
        }
        let same_name = text::same_bytes(found[i].subject.as_slice(), issuer.subject.as_slice());
        if same_name && !text::same_bytes(found[i].der.as_slice(), issuer.der.as_slice()) {
            let mut more = chain::check_responder_chain(&found[i], certs, trust, at);
            proof {
                text::lemma_texts_concat(errors@, more@);
            }
            errors.append(&mut more);
        }
        i += 1;
    }
    assert(all.take(i as int) =~= all);
    errors
}

/// Checks one OCSP response.
fn check_response(
    response: &[u8],
    leaf: &Cert,
    issuer: &Cert,
    certs: &Vec<Cert>,
    trust: &Trust,
    at: Time,
) -> (r: RevocationData)
    ensures
        r.is(
            response_outcome(
                response@,
                leaf@,
                issuer@,
                x509::cert_views(certs@),
                trust@,
                at@,
            ),
        ),
{
    match judge_status(check_revocation(response, leaf, issuer, None, at)) {
        None => {
            let mut found: Vec<Cert> = Vec::new();
            assert(x509::cert_views(found@) =~= Seq::<CertView>::empty());
            let produced_at = read_response(response, &mut found);
            assert(x509::cert_views(found@) =~= accepted_response(response@).1);
            let pool = with_copies(certs, &found);
            let mut errors = chain::check_responder_chain(issuer, &pool, trust, at);
            let mut of_namesakes = check_namesakes(&found, issuer, &pool, trust, at);
            proof {
                text::lemma_texts_concat(errors@, of_namesakes@);
            }
            errors.append(&mut of_namesakes);
            assert(text::texts(errors@).len() == errors@.len());
            if errors.len() == 0 {
                RevocationData { produced_at, certs: found, errors }
            } else {
                let none: Vec<Cert> = Vec::new();
                assert(x509::cert_views(none@) =~= Seq::<CertView>::empty());
                RevocationData { produced_at: None, certs: none, errors }
            }
        },
        Some(error) => only_error(error),
    }
}

/// Says what is missing where no OCSP response is embedded.
fn check_absence(doc: &Tree, unsigned_node: usize) -> (r: RevocationData)
    ensures
        r.is((None, Seq::empty(), absence_errors(doc@, unsigned_node as int))),
{
    match doc.child(unsigned_node, ns::XADES, "RevocationValues") {
        None => {
            let errors: Vec<String> = Vec::new();
            let certs: Vec<Cert> = Vec::new();
            assert(text::texts(errors@) =~= Seq::<Seq<char>>::empty());
            assert(x509::cert_views(certs@) =~= Seq::<CertView>::empty());
            RevocationData { produced_at: None, certs, errors }
        },
        Some(values) => if doc.child(values, ns::XADES, "CRLValues").is_some() {
            only_error("CRLs not supported".to_owned())
        } else {
            only_error("missing OCSP response".to_owned())
        },
    }
}

/// Checks the embedded OCSP responses.
fn check_revocation_data(
    doc: &Tree,
    unsigned_node: usize,
    leaf: &Cert,
    certs: &Vec<Cert>,
    trust: &Trust,
    at: Time,
) -> (r: RevocationData)
    ensures
        r.is(
            revocation_data_outcome(
                doc@,
                unsigned_node as int,
                leaf@,
                x509::cert_views(certs@),
                trust@,
                at@,
            ),
        ),
{
    let nodes = doc.descendants(unsigned_node, ns::XADES, "EncapsulatedOCSPValue");
    assert(tree::places(nodes@).len() == nodes@.len());
    if nodes.len() == 0 {
        return check_absence(doc, unsigned_node);
    }
    let issuer = match find_named(certs, leaf.issuer.as_slice()) {
        Some(c) => c,
        None => {
            return only_error("cannot verify OCSP: issuer certificate is missing".to_owned());
        },
    };
    if nodes.len() > 1 {
        return only_error("multiple OCSP responses not supported".to_owned());
    }
    assert(tree::places(nodes@)[0] == nodes@[0] as int);
    match decode_b64_element(doc, nodes[0]) {
        Some(response) => check_response(response.as_slice(), leaf, issuer, certs, trust, at),
        None => only_error("EncapsulatedOCSPValue is not valid base64".to_owned()),
    }
}

/// Compares the times of a time-stamp and an OCSP response.
pub fn check_order(timestamp: Option<Time>, ocsp: Option<Time>) -> (r: Vec<String>)
    ensures
        text::texts(r@) == order_errors(time::opt_time(timestamp), time::opt_time(ocsp)),
{
    let mut errors: Vec<String> = Vec::new();
    if let Some(ts) = timestamp {
        if let Some(produced) = ocsp {
            if produced.before(&ts) {
                let proof_text = text::joined("OCSP proof (", produced.text().as_str());
                let stamp_text = text::joined3(
                    ") predates the signature timestamp (",
                    ts.text().as_str(),
                    ")",
                );
                errors.push(text::joined(proof_text.as_str(), stamp_text.as_str()));
            }
        }
    }
    assert(text::texts(errors@) =~= order_errors(time::opt_time(timestamp), time::opt_time(ocsp)));
    errors
}

/// Copies of some certificates, after others.
fn with_copies(certs: &Vec<Cert>, more: &Vec<Cert>) -> (r: Vec<Cert>)
    ensures
        x509::cert_views(r@) == x509::cert_views(certs@) + x509::cert_views(more@),
{
    let mut out = x509::copies(certs);
    let mut rest = x509::copies(more);
    proof {
        x509::lemma_cert_views_concat(out@, rest@);
    }
    out.append(&mut rest);
    out
}

/// Verifies the unsigned properties of a signature.
pub fn verify_unsigned(
    doc: &Tree,
    sig_node: usize,
    unsigned_node: usize,
    leaf: &Cert,
    keyinfo_extras: &Vec<Cert>,
    trust: &Trust,
    now: Time,
) -> (r: LtvOutcome)
    ensures
        r@ == unsigned_outcome(
            doc@,
            sig_node as int,
            unsigned_node as int,
            leaf@,
            x509::cert_views(keyinfo_extras@),
            trust@,
            now@,
        ),
{
    let cert_nodes = doc.descendants(unsigned_node, ns::XADES, "EncapsulatedX509Certificate");
    let (mut pool, mut errors) = read_certificates(doc, &cert_nodes);

    let tst_nodes = doc.children(unsigned_node, ns::XADES, "SignatureTimeStamp");
    let extra_certs = chain::der_list(&pool);
    let results = verify_timestamps(doc, sig_node, &tst_nodes, trust, &extra_certs);
    let mut stamps = judge_timestamps(&results);

    let timestamp_time = stamps.earliest;
    let at = match timestamp_time {
        Some(t) => t,
        None => now,
    };
    let certs = with_copies(&pool, keyinfo_extras);
    let mut revocation = check_revocation_data(doc, unsigned_node, leaf, &certs, trust, at);
    let mut of_order = check_order(timestamp_time, revocation.produced_at);
    proof {
        text::lemma_texts_concat(errors@, stamps.errors@);
        text::lemma_texts_concat(errors@ + stamps.errors@, revocation.errors@);
        text::lemma_texts_concat(errors@ + stamps.errors@ + revocation.errors@, of_order@);
        x509::lemma_cert_views_concat(pool@, revocation.certs@);
    }
    errors.append(&mut stamps.errors);
    errors.append(&mut revocation.errors);
    errors.append(&mut of_order);
    pool.append(&mut revocation.certs);
    LtvOutcome {
        timestamp_time,
        ocsp_produced_at: revocation.produced_at,
        pool,
        errors,
        warnings: stamps.warnings,
    }
}

/// An OCSP response that was produced before the proved time of the signature is an error.
pub proof fn early_response_is_an_error(
    doc: TreeView,
    sig: int,
    unsigned: int,
    leaf: CertView,
    extras: Seq<CertView>,
    anchors: Seq<Seq<u8>>,
    now: TimeView,
)
    ensures
        ({
            let outcome = unsigned_outcome(doc, sig, unsigned, leaf, extras, anchors, now);
            (outcome.timestamp_time matches Some(ts) && outcome.ocsp_produced_at matches Some(
                produced,
            ) && produced.before(ts)) ==> outcome.errors.len() > 0
        }),
{
}

/// Without a time-stamp that verifies there is an error.
pub proof fn unproved_time_is_an_error(
    doc: TreeView,
    sig: int,
    unsigned: int,
    leaf: CertView,
    extras: Seq<CertView>,
    anchors: Seq<Seq<u8>>,
    now: TimeView,
)
    ensures
        ({
            let outcome = unsigned_outcome(doc, sig, unsigned, leaf, extras, anchors, now);
            outcome.timestamp_time is None ==> outcome.errors.len() > 0
        }),
{
}

} // verus!
