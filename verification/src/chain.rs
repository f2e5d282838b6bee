//! Trust anchors and certificate chains.
use tsp_ltv::trust::TrustStore;
use vstd::prelude::*;
use x509_cert::der::{Decode, Encode};

use crate::error::{ErrorView, LibError};
use crate::text;
use crate::time::{Time, TimeView};
use crate::x509;
use crate::x509::Cert;

verus! {

/// The trust anchors of the `tsp-ltv` crate.
#[verifier::external_type_specification]
#[verifier::external_body]
pub struct ExTrustStore(tsp_ltv::trust::TrustStore);

/// The certificates that a trust store holds, in the order in which they were added.
pub uninterp spec fn anchors(store: TrustStore) -> Seq<Seq<u8>>;

/// Whether a trust store turns down signatures by outdated digests, as it does unless it is told
/// otherwise.
pub uninterp spec fn is_strict(store: TrustStore) -> bool;

/// `TrustStore::new`: no anchors yet, and the strict signature policy.
#[verifier::external_body]
fn new_store() -> (r: TrustStore)
    ensures
        anchors(r) == Seq::<Seq<u8>>::empty(),
        is_strict(r),
{
    TrustStore::new()
}

/// `TrustStore::add_der_certificate`: a certificate that parses is added at the end; any other
/// leaves the store as it is, and the failure names the reason that parsing gives. The signature
/// policy stays.
#[verifier::external_body]
fn add_anchor(store: &mut TrustStore, der: &[u8]) -> (r: Result<(), String>)
    ensures
        r is Ok <==> x509::is_certificate(der@),
        r is Ok ==> anchors(*final(store)) == anchors(*old(store)).push(der@),
        r is Err ==> anchors(*final(store)) == anchors(*old(store)),
        is_strict(*final(store)) == is_strict(*old(store)),
        r is Err ==> r->Err_0@ == "certificate parse error: DER decode failed: "@
            + x509::certificate(der@)->Err_0,
{
    store.add_der_certificate(der).map_err(|e| e.to_string())
}

/// `TrustStore::certificates_der`: the anchors, in order.
#[verifier::external_body]
fn anchor_list(store: &TrustStore) -> (r: Vec<Vec<u8>>)
    ensures
        text::byte_strings(r@) == anchors(*store),
{
    store.certificates_der().map(|der| der.to_vec()).collect()
}

/// Trust anchors.
pub struct Trust {
    store: TrustStore,
}

impl View for Trust {
    type V = Seq<Seq<u8>>;

    /// The anchors, in the order in which they were added.
    closed spec fn view(&self) -> Seq<Seq<u8>> {
        anchors(self.store)
    }
}

impl Trust {
    #[verifier::type_invariant]
    spec fn is_strict(self) -> bool {
        is_strict(self.store)
    }

    /// The trust store that holds the anchors.
    pub(crate) fn store(&self) -> (r: &TrustStore)
        ensures
            anchors(*r) == self@,
            is_strict(*r),
    {
        proof {
            use_type_invariant(self);
        }
        &self.store
    }
}

/// The chain from a certificate up to one issued by an anchor, up to one that signed itself, or as
/// far as the depth limit; or why there is none.
pub uninterp spec fn built_chain(
    leaf: Seq<u8>,
    pool: Seq<Seq<u8>>,
    anchor_subjects: Seq<Seq<u8>>,
) -> Result<Seq<Seq<u8>>, Seq<char>>;

/// A chain, or the failure as text.
pub open spec fn chain_view(r: Result<Vec<Vec<u8>>, String>) -> Result<Seq<Seq<u8>>, Seq<char>> {
    match r {
        Ok(chain) => Ok(text::byte_strings(chain@)),
        Err(e) => Err(e@),
    }
}

/// `tsp_ltv::trust::build_chain_from_pool` at its default depth.
#[verifier::external_body]
fn build_chain(leaf: &[u8], pool: &Vec<Vec<u8>>, anchor_subjects: &Vec<Vec<u8>>) -> (r: Result<
    Vec<Vec<u8>>,
    String,
>)
    ensures
        chain_view(r) == built_chain(
            leaf@,
            text::byte_strings(pool@),
            text::byte_strings(anchor_subjects@),
        ),
{
    let parse = |der: &[u8]| x509_cert::Certificate::from_der(der).map_err(|e| e.to_string());
    let parsed = pool.iter().map(|der| parse(der)).collect::<Result<Vec<_>, _>>()?;
    tsp_ltv::trust::build_chain_from_pool(&parse(leaf)?, &parsed, anchor_subjects, None)
        .map(|chain| chain.iter().map(|c| c.to_der().unwrap_or_default()).collect())
        .map_err(|e| e.to_string())
}

/// Whether a signer's chain ends at one of the anchors and is valid at a time, or why not; with
/// signatures by outdated digests turned down.
pub uninterp spec fn signer_chain_outcome(
    anchors: Seq<Seq<u8>>,
    chain: Seq<Seq<u8>>,
    secs: Option<int>,
) -> Result<(), Seq<char>>;

/// `TrustStore::verify_chain_for_purpose` for an end-entity certificate.
#[verifier::external_body]
fn verify_signer_chain(store: &TrustStore, chain: &Vec<Vec<u8>>, secs: Option<u64>) -> (r: Result<
    (),
    String,
>)
    requires
        is_strict(*store),
        secs matches Some(s) ==> s <= crate::time::LAST_DER_SECOND,
    ensures
        text::check_view(r) == signer_chain_outcome(
            anchors(*store),
            text::byte_strings(chain@),
            crate::time::opt_secs(secs),
        ),
{
    let parsed = chain.iter().map(|der| x509_cert::Certificate::from_der(der))
        .collect::<Result<Vec<_>, _>>().map_err(|e| e.to_string())?;
    let time = secs.map(std::time::Duration::from_secs)
        .and_then(|d| x509_cert::der::DateTime::from_unix_duration(d).ok());
    store.verify_chain_for_purpose(&parsed, time, tsp_ltv::ltv::CertRole::EndEntity)
        .map(|_anchor| ()).map_err(|e| e.to_string())
}

/// Whether any chain ends at one of the anchors and is valid at a time, or why not; with signatures
/// by outdated digests turned down.
pub uninterp spec fn issuer_chain_outcome(
    anchors: Seq<Seq<u8>>,
    chain: Seq<Seq<u8>>,
    secs: Option<int>,
) -> Result<(), Seq<char>>;

/// `TrustStore::verify_chain`.
#[verifier::external_body]
fn verify_issuer_chain(store: &TrustStore, chain: &Vec<Vec<u8>>, secs: Option<u64>) -> (r: Result<
    (),
    String,
>)
    requires
        is_strict(*store),
        secs matches Some(s) ==> s <= crate::time::LAST_DER_SECOND,
    ensures
        text::check_view(r) == issuer_chain_outcome(
            anchors(*store),
            text::byte_strings(chain@),
            crate::time::opt_secs(secs),
        ),
{
    let parsed = chain.iter().map(|der| x509_cert::Certificate::from_der(der))
        .collect::<Result<Vec<_>, _>>().map_err(|e| e.to_string())?;
    let time = secs.map(std::time::Duration::from_secs)
        .and_then(|d| x509_cert::der::DateTime::from_unix_duration(d).ok());
    store.verify_chain(&parsed, time).map(|_anchor| ()).map_err(|e| e.to_string())
}

/// The subject names of some certificates.
pub open spec fn subjects(certs: Seq<Seq<u8>>) -> Seq<Seq<u8>>
    decreases certs.len(),
{
    if certs.len() == 0 {
        Seq::empty()
    } else {
        match x509::certificate(certs.last()) {
            Ok(cert) => subjects(certs.drop_last()).push(cert.subject),
            Err(_) => subjects(certs.drop_last()),
        }
    }
}

/// Lists the subject names of the anchors.
fn anchor_subjects(store: &TrustStore) -> (r: Vec<Vec<u8>>)
    ensures
        text::byte_strings(r@) == subjects(anchors(*store)),
{
    broadcast use crate::text::byte_strings_push;

    let list = anchor_list(store);
    let ghost all = anchors(*store);
    let mut out: Vec<Vec<u8>> = Vec::new();
    let mut i: usize = 0;
    assert(all.take(0) =~= Seq::<Seq<u8>>::empty());
    assert(text::byte_strings(out@) =~= Seq::<Seq<u8>>::empty());
    assert(all.len() == list@.len());
    while i < list.len()
        invariant
            i <= list@.len(),
            all == text::byte_strings(list@),
            text::byte_strings(out@) == subjects(all.take(i as int)),
        decreases list@.len() - i,
    {
        proof {
            assert(all.take(i + 1).drop_last() =~= all.take(i as int));
            assert(all.take(i + 1).last() == list@[i as int]@);
        }
        if let Ok(cert) = x509::parse_certificate(list[i].as_slice()) {
            out.push(cert.subject);
        }
        i += 1;
    }
    assert(all.take(i as int) =~= all);
    out
}

/// Puts certificates into a trust store, or says which is none.
pub open spec fn store_outcome(certs: Seq<Seq<u8>>) -> Result<Seq<Seq<u8>>, ErrorView>
    decreases certs.len(),
{
    if certs.len() == 0 {
        Ok(Seq::empty())
    } else {
        match store_outcome(certs.drop_last()) {
            Err(e) => Err(e),
            Ok(before) => match x509::certificate(certs.last()) {
                Ok(_) => Ok(before.push(certs.last())),
                Err(e) => Err(
                    ErrorView::Certificate(
                        "trust anchor: certificate parse error: DER decode failed: "@ + e,
                    ),
                ),
            },
        }
    }
}

/// A store holds exactly the certificates that were put into it.
pub proof fn store_holds_what_was_added(certs: Seq<Seq<u8>>)
    ensures
        store_outcome(certs) matches Ok(held) ==> held == certs,
        store_outcome(certs) is Ok <==> forall|i: int|
            0 <= i < certs.len() ==> x509::is_certificate(#[trigger] certs[i]),
    decreases certs.len(),
{
    if certs.len() > 0 {
        let front = certs.drop_last();
        store_holds_what_was_added(front);
        assert(certs =~= front.push(certs.last()));
        if store_outcome(certs) is Ok {
            assert forall|i: int| 0 <= i < certs.len() implies x509::is_certificate(
                #[trigger] certs[i],
            ) by {
                if i < certs.len() - 1 {
                    assert(front[i] == certs[i]);
                }
            }
        } else {
            if store_outcome(front) is Err {
                let k = choose|k: int|
                    0 <= k < front.len() && !x509::is_certificate(#[trigger] front[k]);
                assert(certs[k] == front[k]);
            } else {
                assert(!x509::is_certificate(certs[certs.len() - 1]));
            }
        }
    }
}

/// Puts certificates into a new trust store.
pub fn trust_store(certs: &Vec<Vec<u8>>) -> (r: Result<Trust, LibError>)
    ensures
        match r {
            Ok(trust) => store_outcome(text::byte_strings(certs@)) == Ok::<
                Seq<Seq<u8>>,
                ErrorView,
            >(trust@),
            Err(e) => store_outcome(text::byte_strings(certs@)) == Err::<
                Seq<Seq<u8>>,
                ErrorView,
            >(e@),
        },
{
    let mut store = new_store();
    let ghost all = text::byte_strings(certs@);
    let mut i: usize = 0;
    assert(all.take(0) =~= Seq::<Seq<u8>>::empty());
    while i < certs.len()
        invariant
            i <= certs@.len(),
            all == text::byte_strings(certs@),
            store_outcome(all.take(i as int)) == Ok::<Seq<Seq<u8>>, ErrorView>(anchors(store)),
            is_strict(store),
        decreases certs@.len() - i,
    {
        proof {
            assert(all.take(i + 1).drop_last() =~= all.take(i as int));
            assert(all.take(i + 1).last() == certs@[i as int]@);
        }
        match add_anchor(&mut store, certs[i].as_slice()) {
            Ok(()) => {},
            Err(e) => {
                let message = text::joined("trust anchor: ", e.as_str());
                proof {
                    lemma_anchor_message(x509::certificate(certs@[i as int]@)->Err_0);
                    lemma_store_error(all, i + 1);
                }
                return Err(LibError::Certificate(message));
            },
        }
        i += 1;
    }
    assert(all.take(i as int) =~= all);
    Ok(Trust { store })
}

proof fn lemma_anchor_message(reason: Seq<char>)
    ensures
        "trust anchor: "@ + ("certificate parse error: DER decode failed: "@ + reason)
            == "trust anchor: certificate parse error: DER decode failed: "@ + reason,
{
    reveal_strlit("trust anchor: ");
    reveal_strlit("certificate parse error: DER decode failed: ");
    reveal_strlit("trust anchor: certificate parse error: DER decode failed: ");
    assert("trust anchor: "@ + "certificate parse error: DER decode failed: "@
        =~= "trust anchor: certificate parse error: DER decode failed: "@);
    assert("trust anchor: "@ + ("certificate parse error: DER decode failed: "@ + reason) =~= (
    "trust anchor: "@ + "certificate parse error: DER decode failed: "@) + reason);
}

proof fn lemma_store_error(certs: Seq<Seq<u8>>, n: int)
    requires
        0 <= n <= certs.len(),
        store_outcome(certs.take(n)) is Err,
    ensures
        store_outcome(certs) == store_outcome(certs.take(n)),
    decreases certs.len(),
{
    if n < certs.len() {
        assert(certs.drop_last().take(n) =~= certs.take(n));
        lemma_store_error(certs.drop_last(), n);
    } else {
        assert(certs.take(n) =~= certs);
    }
}

/// What is wrong with the time at which a chain is to be checked.
pub open spec fn time_errors(at: TimeView) -> Seq<Seq<char>> {
    if at.der_seconds() is Some {
        Seq::empty()
    } else {
        seq!["validation time out of range: "@ + crate::time::time_text(at.secs, at.nanos)]
    }
}

/// What is wrong with a chain that was checked as of a time.
pub open spec fn checked_chain_errors(at: TimeView, verified: Result<(), Seq<char>>) -> Seq<
    Seq<char>,
> {
    time_errors(at) + match verified {
        Ok(()) => Seq::empty(),
        Err(e) => seq!["certificate chain validation failed: "@ + e],
    }
}

/// What is wrong with the chain from a signer's certificate to the anchors.
pub open spec fn chain_errors(
    leaf: Seq<u8>,
    pool: Seq<Seq<u8>>,
    anchors: Seq<Seq<u8>>,
    at: TimeView,
) -> Seq<Seq<char>> {
    if anchors.len() == 0 {
        seq!["no trust anchors configured"@]
    } else {
        match built_chain(leaf, pool, subjects(anchors)) {
            Err(e) => seq!["cannot build certificate chain: "@ + e],
            Ok(chain) => checked_chain_errors(
                at,
                signer_chain_outcome(anchors, chain, at.der_seconds()),
            ),
        }
    }
}

/// Says what is wrong with a chain that was checked as of a time.
pub fn judge_chain(at: Time, verified: Result<(), String>) -> (r: Vec<String>)
    ensures
        text::texts(r@) == checked_chain_errors(at@, text::check_view(verified)),
{
    broadcast use crate::text::texts_push;

    let mut errors: Vec<String> = Vec::new();
    if at.der_seconds().is_none() {
        errors.push(text::joined("validation time out of range: ", at.text().as_str()));
    }
    assert(text::texts(errors@) =~= time_errors(at@));
    if let Err(e) = verified {
        errors.push(text::joined("certificate chain validation failed: ", e.as_str()));
    }
    assert(text::texts(errors@) =~= checked_chain_errors(at@, text::check_view(verified)));
    errors
}

/// The encodings of some certificates.
pub(crate) fn der_list(certs: &Vec<Cert>) -> (r: Vec<Vec<u8>>)
    ensures
        text::byte_strings(r@) == x509::ders(x509::cert_views(certs@)),
{
    broadcast use crate::text::byte_strings_push;

    let mut out: Vec<Vec<u8>> = Vec::new();
    let mut i: usize = 0;
    let ghost all = x509::ders(x509::cert_views(certs@));
    assert(text::byte_strings(out@) =~= all.take(0));
    while i < certs.len()
        invariant
            i <= certs@.len(),
            all == x509::ders(x509::cert_views(certs@)),
            text::byte_strings(out@) == all.take(i as int),
        decreases certs@.len() - i,
    {
        let der = vstd::slice::slice_to_vec(certs[i].der.as_slice());
        assert(der@ =~= certs@[i as int]@.der);
        out.push(der);
        assert(all.take(i + 1) =~= all.take(i as int).push(all[i as int]));
        i += 1;
    }
    assert(all.take(i as int) =~= all);
    out
}

/// Chains the signer's certificate to the trust anchors.
pub fn check_chain(leaf: &Cert, pool: &Vec<Cert>, trust: &Trust, at: Time) -> (r: Vec<String>)
    ensures
        text::texts(r@) == chain_errors(
            leaf@.der,
            x509::ders(x509::cert_views(pool@)),
            trust@,
            at@,
        ),
{
    broadcast use crate::text::texts_push;

    let mut errors: Vec<String> = Vec::new();
    let store = trust.store();
    let list = anchor_list(store);
    assert(list@.len() == trust@.len());
    if list.len() == 0 {
        errors.push("no trust anchors configured".to_owned());
        assert(text::texts(errors@) =~= seq!["no trust anchors configured"@]);
        return errors;
    }
    let anchor_names = anchor_subjects(store);
    let encoded = der_list(pool);
    match build_chain(leaf.der.as_slice(), &encoded, &anchor_names) {
        Err(e) => {
            errors.push(text::joined("cannot build certificate chain: ", e.as_str()));
            assert(text::texts(errors@) =~= seq!["cannot build certificate chain: "@ + e@]);
        },
        Ok(chain) => {
            return judge_chain(at, verify_signer_chain(store, &chain, at.der_seconds()));
        },
    }
    errors
}

/// What is wrong with the chain from the issuer of an OCSP response to the anchors.
///
/// An issuer that is itself an anchor needs no chain.
pub open spec fn responder_chain_errors(
    issuer: Seq<u8>,
    pool: Seq<Seq<u8>>,
    anchors: Seq<Seq<u8>>,
    at: TimeView,
) -> Seq<Seq<char>> {
    if anchors.contains(issuer) {
        Seq::empty()
    } else {
        match built_chain(issuer, pool, subjects(anchors)) {
            Err(e) => seq!["OCSP issuer: cannot build certificate chain: "@ + e],
            Ok(chain) => match issuer_chain_outcome(anchors, chain, at.der_seconds()) {
                Ok(()) => Seq::empty(),
                Err(e) => seq!["OCSP issuer: certificate chain validation failed: "@ + e],
            },
        }
    }
}

/// Whether a byte string is in a list.
pub(crate) fn contains(list: &Vec<Vec<u8>>, item: &[u8]) -> (r: bool)
    ensures
        r == text::byte_strings(list@).contains(item@),
{
    let ghost all = text::byte_strings(list@);
    let mut i: usize = 0;
    while i < list.len()
        invariant
            i <= list@.len(),
            all == text::byte_strings(list@),
            forall|k: int| 0 <= k < i ==> #[trigger] all[k] != item@,
        decreases list@.len() - i,
    {
        assert(all[i as int] == list@[i as int]@);
        if text::same_bytes(list[i].as_slice(), item) {
            return true;
        }
        i += 1;
    }
    false
}

/// Chains the issuer of an OCSP response to the trust anchors.
pub fn check_responder_chain(
    issuer: &Cert,
    pool: &Vec<Cert>,
    trust: &Trust,
    at: Time,
) -> (r: Vec<String>)
    ensures
        text::texts(r@) == responder_chain_errors(
            issuer@.der,
            x509::ders(x509::cert_views(pool@)),
            trust@,
            at@,
        ),
{
    broadcast use crate::text::texts_push;

    let mut errors: Vec<String> = Vec::new();
    assert(text::texts(errors@) =~= Seq::<Seq<char>>::empty());
    let store = trust.store();
    let list = anchor_list(store);
    if contains(&list, issuer.der.as_slice()) {
        return errors;
    }
    let anchor_names = anchor_subjects(store);
    let encoded = der_list(pool);
    match build_chain(issuer.der.as_slice(), &encoded, &anchor_names) {
        Err(e) => {
            errors.push(text::joined("OCSP issuer: cannot build certificate chain: ", e.as_str()));
            assert(text::texts(errors@) =~= seq![
                "OCSP issuer: cannot build certificate chain: "@ + e@,
            ]);
        },
        Ok(chain) => match verify_issuer_chain(store, &chain, at.der_seconds()) {
            Ok(()) => {},
            Err(e) => {
                errors.push(
                    text::joined("OCSP issuer: certificate chain validation failed: ", e.as_str()),
                );
                assert(text::texts(errors@) =~= seq![
                    "OCSP issuer: certificate chain validation failed: "@ + e@,
                ]);
            },
        },
    }
    errors
}

} // verus!
