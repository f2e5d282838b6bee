use xades::chain::{check_chain, check_responder_chain, judge_chain, trust_store};
use xades::sig::lt::check_status;
use xades::validate::ltv::{check_order, find_named, judge_status, judge_timestamps};
use xades::validate::{judge_document, validate_at, CoreOutcome, CoreVerifier};
use xades::x509::parse_certificate;
use xades::xml::input::parse;
use xades::xml::tree::Tree;
use xades::{
    DataObject, LibError, Profile, SignatureValidation, Time, ValidationOptions,
};

fn at(secs: i64) -> Time {
    Time::new(secs, 0).unwrap()
}

fn failure(reason: &str) -> Result<Time, String> {
    Err(reason.to_string())
}

#[test]
fn earliest_timestamp_counts() {
    let judged = judge_timestamps(&vec![Ok(at(30)), failure("odd"), Ok(at(10)), Ok(at(20))]);
    assert_eq!(judged.earliest.map(|t| t.parts()), Some((10, 0)));
    assert_eq!(judged.errors, Vec::<String>::new());
    assert_eq!(judged.warnings, vec!["SignatureTimeStamp 2 did not verify: odd"]);
}

#[test]
fn failed_timestamps_are_summed_up() {
    let judged = judge_timestamps(&vec![failure("a"), failure("b")]);
    assert!(judged.earliest.is_none());
    assert_eq!(judged.errors, vec!["no SignatureTimeStamp verified (#1: a; #2: b)"]);
    assert_eq!(judged.warnings, Vec::<String>::new());
    let judged = judge_timestamps(&vec![failure("")]);
    assert_eq!(judged.errors, vec!["no SignatureTimeStamp verified (#1: )"]);
    let judged = judge_timestamps(&vec![]);
    assert_eq!(judged.errors, vec!["missing SignatureTimeStamp"]);
}

#[test]
fn statuses_are_told_apart() {
    assert_eq!(judge_status(Ok(None)), None);
    assert_eq!(
        judge_status(Ok(Some("Unknown".to_string()))),
        Some("revocation status: Unknown".to_string())
    );
    assert_eq!(
        judge_status(Err("bad".to_string())),
        Some("OCSP response: bad".to_string())
    );
    assert!(check_status(Ok(None)).is_ok());
    match check_status(Ok(Some("Unknown".to_string()))) {
        Err(LibError::Ocsp(m)) => {
            assert_eq!(m, "signer certificate revocation status is not good: Unknown")
        }
        _ => panic!("an unknown status was accepted"),
    }
    match check_status(Err("bad".to_string())) {
        Err(LibError::Ocsp(m)) => assert_eq!(m, "OCSP response invalid: bad"),
        _ => panic!("a bad response was accepted"),
    }
}

#[test]
fn response_may_not_predate_the_timestamp() {
    assert_eq!(
        check_order(Some(at(1)), Some(at(0))),
        vec!["OCSP proof (1970-01-01 00:00:00 UTC) predates the signature timestamp (1970-01-01 00:00:01 UTC)"]
    );
    assert_eq!(check_order(Some(at(1)), Some(at(1))), Vec::<String>::new());
    assert_eq!(check_order(Some(at(1)), None), Vec::<String>::new());
    assert_eq!(check_order(None, Some(at(1))), Vec::<String>::new());
}

#[test]
fn times_are_ordered_by_seconds_and_nanoseconds() {
    let a = Time::new(5, 999_999_999).unwrap();
    let b = Time::new(6, 0).unwrap();
    assert!(a.before(&b) && !b.before(&a) && !a.before(&a));
    assert_eq!(a.earlier(b).parts(), (5, 999_999_999));
    assert_eq!(b.earlier(a).parts(), (5, 999_999_999));
}

#[test]
fn times_have_bounds() {
    for (secs, nanos) in [
        (xades::time::FIRST_SECOND, 0),
        (xades::time::FIRST_SECOND - 1, 0),
        (xades::time::LAST_SECOND, 999_999_999),
        (xades::time::LAST_SECOND, 1_999_999_999),
        (xades::time::LAST_SECOND + 1, 0),
        (59, 1_000_000_000),
        (58, 1_000_000_000),
        (-1, 1_500_000_000),
        (-2, 1_500_000_000),
        (0, 2_000_000_000),
    ] {
        let ours = Time::new(secs, nanos);
        let theirs = chrono::DateTime::from_timestamp(secs, nanos);
        assert_eq!(ours.is_some(), theirs.is_some(), "{secs} {nanos}");
        if let (Some(a), Some(b)) = (ours, theirs) {
            assert_eq!(a.text(), b.to_string());
        }
    }
    let before = chrono::Utc::now().timestamp();
    let now = Time::now().parts().0;
    assert!(before <= now && now <= before + 20);
}

#[test]
fn certificates_speak_of_some_times_only() {
    assert_eq!(at(0).der_seconds(), Some(0));
    assert_eq!(at(-1).der_seconds(), None);
    assert_eq!(at(xades::time::LAST_DER_SECOND).der_seconds(), Some(253_402_300_799));
    assert_eq!(at(xades::time::LAST_DER_SECOND + 1).der_seconds(), None);
}

#[test]
fn chains_are_judged_as_of_a_time() {
    assert_eq!(judge_chain(at(0), Ok(())), Vec::<String>::new());
    assert_eq!(
        judge_chain(at(0), Err("expired".to_string())),
        vec!["certificate chain validation failed: expired"]
    );
    assert_eq!(
        judge_chain(at(-1), Err("expired".to_string())),
        vec![
            "validation time out of range: 1969-12-31 23:59:59 UTC",
            "certificate chain validation failed: expired"
        ]
    );
}

fn self_signed(name: &str) -> Vec<u8> {
    let rcgen::CertifiedKey { cert, .. } =
        rcgen::generate_simple_self_signed(vec![name.to_string()]).unwrap();
    cert.der().to_vec()
}

#[test]
fn chains_need_anchors() {
    let leaf = parse_certificate(&self_signed("a.test")).unwrap();
    let empty = trust_store(&vec![]).unwrap();
    assert_eq!(
        check_chain(&leaf, &vec![], &empty, at(0)),
        vec!["no trust anchors configured"]
    );
    let errors = check_responder_chain(&leaf, &vec![], &empty, at(0));
    assert_eq!(errors.len(), 1);
    assert!(errors[0].starts_with("OCSP issuer: "), "{errors:?}");
    let holding = trust_store(&vec![leaf.der.clone()]).unwrap();
    assert_eq!(
        check_responder_chain(&leaf, &vec![], &holding, at(0)),
        Vec::<String>::new()
    );
}

#[test]
fn anchors_must_be_certificates() {
    match trust_store(&vec![self_signed("a.test"), vec![1, 2, 3]]) {
        Err(LibError::Certificate(m)) => {
            let reason = parse_certificate(&[1, 2, 3]).err().unwrap();
            assert_eq!(
                m,
                format!("trust anchor: certificate parse error: DER decode failed: {reason}")
            );
        }
        _ => panic!("bytes passed for an anchor"),
    }
}

#[test]
fn certificates_are_found_by_name() {
    let a = parse_certificate(&self_signed("a.test")).unwrap();
    let b = parse_certificate(&self_signed("b.test")).unwrap();
    let pool = vec![a.copy(), b.copy()];
    assert_eq!(find_named(&pool, &a.subject).map(|c| c.der.clone()), Some(a.der));
    assert!(find_named(&pool, &[0x30, 0x00]).is_none());
    assert!(find_named(&vec![], &b.subject).is_none());
}

/// Finds nothing wrong, and nothing else either.
struct Blind;

impl CoreVerifier for Blind {
    fn verify_core(&self, _doc: &Tree, _sig: usize, _files: &[DataObject<'_>]) -> CoreOutcome {
        CoreOutcome { sp_node: None, cert_der: None, extra_certs: vec![], errors: vec![] }
    }
}

/// Fails with a certificate that is none.
struct Failing;

impl CoreVerifier for Failing {
    fn verify_core(&self, _doc: &Tree, sig: usize, _files: &[DataObject<'_>]) -> CoreOutcome {
        CoreOutcome {
            sp_node: None,
            cert_der: Some(vec![sig as u8]),
            extra_certs: vec![],
            errors: vec!["core".to_string()],
        }
    }
}

fn reports<C: CoreVerifier>(xml: &str, core: &C) -> Vec<SignatureValidation> {
    validate_at(xml, &[], &ValidationOptions::default(), core, at(0)).unwrap()
}

#[test]
fn unusable_documents_get_one_report() {
    let open = reports("<a>", &Blind);
    assert_eq!(open.len(), 1);
    assert!(open[0].errors[0].starts_with("signature document is not well-formed XML: "));
    let none = reports("<a/>", &Blind);
    assert_eq!(none.len(), 1);
    assert_eq!(none[0].errors, vec!["document contains no ds:Signature"]);
    for twice in ["<a Id=\"x\"><b Id=\"x\"/></a>", "<a Id=\"x\"><b ID=\"x\"/></a>", "<a id=\"x\" Id=\"x\"/>"] {
        let repeated = reports(twice, &Blind);
        assert_eq!(repeated.len(), 1);
        assert!(!repeated[0].is_valid());
        assert_eq!(
            repeated[0].errors,
            vec!["ID attributes: invalid XML structure: duplicate ID: x"]
        );
    }
}

#[test]
fn documents_are_judged_by_ids_and_signatures() {
    assert_eq!(
        judge_document(&parse("<a/>").unwrap(), Err("twice".to_string())),
        Some("ID attributes: twice".to_string())
    );
    assert_eq!(
        judge_document(&parse("<a/>").unwrap(), Ok(())),
        Some("document contains no ds:Signature".to_string())
    );
    let signed = format!("<s:Signature xmlns:s=\"{}\"/>", xades::ns::DSIG);
    assert_eq!(judge_document(&parse(&signed).unwrap(), Ok(())), None);
}

#[test]
fn every_signature_gets_its_report() {
    let xml = format!(
        "<r xmlns:s=\"{}\"><s:Signature Id=\"one\"/><s:Signature/><s:Signature Id=\"three\"/></r>",
        xades::ns::DSIG
    );
    let all = reports(&xml, &Blind);
    let ids: Vec<Option<&str>> = all.iter().map(|r| r.signature_id.as_deref()).collect();
    assert_eq!(ids, vec![Some("one"), None, Some("three")]);
    for r in &all {
        assert_eq!(r.errors, vec!["SignedProperties could not be resolved"]);
        assert_eq!(r.profile, Profile::B);
    }
}

/// Finds signed properties, no certificate, and nothing wrong.
struct Careless;

impl CoreVerifier for Careless {
    fn verify_core(&self, doc: &Tree, sig: usize, _files: &[DataObject<'_>]) -> CoreOutcome {
        let sp_node = doc.descendants(sig, xades::ns::XADES, "SignedProperties").first().copied();
        CoreOutcome { sp_node, cert_der: None, extra_certs: vec![], errors: vec![] }
    }
}

#[test]
fn signature_without_a_certificate_is_invalid() {
    let xml = format!(
        "<s:Signature xmlns:s=\"{}\"><p:SignedProperties xmlns:p=\"{}\"/></s:Signature>",
        xades::ns::DSIG,
        xades::ns::XADES
    );
    let all = reports(&xml, &Careless);
    assert_eq!(all.len(), 1);
    assert_eq!(all[0].errors, vec!["no signer certificate"]);
}

#[test]
fn core_errors_come_first() {
    let xml = format!("<s:Signature xmlns:s=\"{}\"/>", xades::ns::DSIG);
    let all = reports(&xml, &Failing);
    assert_eq!(all.len(), 1);
    assert_eq!(all[0].errors[..2], ["core", "SignedProperties could not be resolved"]);
    assert!(all[0].errors[2].starts_with("signer certificate does not parse: "));
    assert_eq!(all[0].errors.len(), 3);
    assert!(all[0].signer_cert_der.is_some());
}

#[test]
fn bad_anchors_stop_validation() {
    let options = ValidationOptions {
        trusted_certs_der: vec![vec![0]],
        validation_time: None,
    };
    match validate_at("<a/>", &[], &options, &Blind, at(0)) {
        Err(LibError::Certificate(m)) => assert!(m.starts_with("trust anchor: "), "{m}"),
        _ => panic!("bytes passed for an anchor"),
    }
}

#[test]
fn blank_report_is_valid() {
    let blank = SignatureValidation::default();
    assert!(blank.is_valid());
    assert_eq!(blank.profile, Profile::default());
}

fn pem(ders: &[Vec<u8>]) -> String {
    ders.iter()
        .map(|der| {
            let body = xades::codec::encode_b64(der);
            let lines: Vec<&str> = (0..body.len())
                .step_by(64)
                .map(|i| &body[i..body.len().min(i + 64)])
                .collect();
            format!(
                "-----BEGIN CERTIFICATE-----\n{}\n-----END CERTIFICATE-----\n",
                lines.join("\n")
            )
        })
        .collect()
}

#[test]
fn anchors_are_added_from_pem() {
    let ders = vec![self_signed("a.test"), self_signed("b.test")];
    let mut options = ValidationOptions::default();
    options.add_trusted_pem(pem(&ders[..1]).as_bytes()).unwrap();
    options.add_trusted_pem(pem(&ders).as_bytes()).unwrap();
    assert_eq!(
        options.trusted_certs_der,
        vec![ders[0].clone(), ders[0].clone(), ders[1].clone()]
    );
}

#[test]
fn broken_pem_adds_nothing() {
    let mut options = ValidationOptions::default();
    match options.add_trusted_pem(b"-----BEGIN CERTIFICATE-----\n?\n-----END CERTIFICATE-----\n") {
        Err(LibError::Certificate(m)) => assert!(m.starts_with("trusted PEM: "), "{m}"),
        _ => panic!("broken PEM was accepted"),
    }
    for blank in ["x", "", "\r\n\n"] {
        match options.add_trusted_pem(blank.as_bytes()) {
            Err(LibError::Certificate(m)) => assert_eq!(m, "no certificates in PEM input"),
            _ => panic!("text without certificates was accepted"),
        }
    }
    assert!(options.trusted_certs_der.is_empty());
}

#[test]
fn adding_stops_at_the_first_failure() {
    let mut options = ValidationOptions::default();
    let certs = vec![Ok(vec![1]), Err("why".to_string()), Ok(vec![2])];
    match options.add_encoded(certs) {
        Err(LibError::Certificate(m)) => assert_eq!(m, "trusted cert: why"),
        _ => panic!("a failure was passed over"),
    }
    assert_eq!(options.trusted_certs_der, vec![vec![1]]);
}
