use rcgen::{
    BasicConstraints, CertificateParams, CertifiedIssuer, CustomExtension, DnType, IsCa, KeyPair,
    KeyUsagePurpose,
};
use x509_cert::der::Decode;
use xades::codec::{decode_b64, encode_reference_uri, frame_der};
use xades::crypto::signature_digest_uri;
use xades::sig::lt::{LtStart, StatusRequest, TimestampRequest};
use xades::sig::template::{build_signature_xml, Draft, FileRef};
use xades::validate::{validate_at, CoreOutcome, CoreVerifier};
use xades::x509::parse_certificate;
use xades::xml::input::{parse, C14nMethod, C14N11};
use xades::xml::tree::Tree;
use xades::{
    CreatedSignature, DataObject, LibError, LtConfig, Profile, SignatureValidation, Signer,
    SoftwareSigner, Time, ValidationOptions,
};

const FILES: &[DataObject<'static>] = &[DataObject {
    name: "test file.txt",
    mime_type: "text/plain",
    content: b"This is a test file.\n",
}];

// 2026-06-15T12:00:00Z
const NOON: i64 = 1_781_524_800;

const SIGNED_DATA: &[u8] = &[0x06, 0x09, 0x2a, 0x86, 0x48, 0x86, 0xf7, 0x0d, 0x01, 0x07, 0x02];
const TST_INFO: &[u8] = &[
    0x06, 0x0b, 0x2a, 0x86, 0x48, 0x86, 0xf7, 0x0d, 0x01, 0x09, 0x10, 0x01, 0x04,
];
const CONTENT_TYPE: &[u8] = &[0x06, 0x09, 0x2a, 0x86, 0x48, 0x86, 0xf7, 0x0d, 0x01, 0x09, 0x03];
const MESSAGE_DIGEST: &[u8] = &[0x06, 0x09, 0x2a, 0x86, 0x48, 0x86, 0xf7, 0x0d, 0x01, 0x09, 0x04];
const SHA256_OID: &[u8] = &[0x06, 0x09, 0x60, 0x86, 0x48, 0x01, 0x65, 0x03, 0x04, 0x02, 0x01];
const SHA1_OID: &[u8] = &[0x06, 0x05, 0x2b, 0x0e, 0x03, 0x02, 0x1a];
const ECDSA_SHA256_OID: &[u8] = &[0x06, 0x08, 0x2a, 0x86, 0x48, 0xce, 0x3d, 0x04, 0x03, 0x02];
const OCSP_BASIC: &[u8] = &[0x06, 0x09, 0x2b, 0x06, 0x01, 0x05, 0x05, 0x07, 0x30, 0x01, 0x01];
const POLICY: &[u8] = &[0x06, 0x02, 0x2a, 0x03];
const TIME_STAMPING_EKU: &[u8] = &[
    0x30, 0x0a, 0x06, 0x08, 0x2b, 0x06, 0x01, 0x05, 0x05, 0x07, 0x03, 0x08,
];

struct TestPki {
    ca_der: Vec<u8>,
    ca: SoftwareSigner,
    tsa: SoftwareSigner,
    signer: SoftwareSigner,
}

fn test_pki() -> TestPki {
    let ca_key = KeyPair::generate().unwrap();
    let ca_pem = ca_key.serialize_pem();
    let mut ca_params = CertificateParams::new(Vec::<String>::new()).unwrap();
    ca_params.distinguished_name.push(DnType::CommonName, "Test CA");
    ca_params.is_ca = IsCa::Ca(BasicConstraints::Unconstrained);
    ca_params.key_usages = vec![KeyUsagePurpose::KeyCertSign, KeyUsagePurpose::CrlSign];
    let ca = CertifiedIssuer::self_signed(ca_params, ca_key).unwrap();

    let tsa_key = KeyPair::generate().unwrap();
    let mut tsa_params = CertificateParams::new(Vec::<String>::new()).unwrap();
    tsa_params.distinguished_name.push(DnType::CommonName, "Test TSA");
    tsa_params.key_usages = vec![KeyUsagePurpose::DigitalSignature];
    let mut eku = CustomExtension::from_oid_content(&[2, 5, 29, 37], TIME_STAMPING_EKU.to_vec());
    eku.set_criticality(true);
    tsa_params.custom_extensions = vec![eku];
    let tsa_cert = tsa_params.signed_by(&tsa_key, &ca).unwrap();

    let leaf_key = KeyPair::generate().unwrap();
    let mut leaf_params = CertificateParams::new(Vec::<String>::new()).unwrap();
    leaf_params.distinguished_name.push(DnType::CommonName, "Test Signer");
    leaf_params.key_usages = vec![
        KeyUsagePurpose::DigitalSignature,
        KeyUsagePurpose::ContentCommitment,
    ];
    let leaf_cert = leaf_params.signed_by(&leaf_key, &ca).unwrap();

    TestPki {
        ca_der: ca.der().to_vec(),
        ca: SoftwareSigner::from_pem(ca_pem.as_bytes(), ca.der(), None).unwrap(),
        tsa: SoftwareSigner::from_pem(tsa_key.serialize_pem().as_bytes(), tsa_cert.der(), None)
            .unwrap(),
        signer: SoftwareSigner::from_pem(
            leaf_key.serialize_pem().as_bytes(),
            leaf_cert.der(),
            None,
        )
        .unwrap(),
    }
}

fn tlv(tag: u8, parts: &[&[u8]]) -> Vec<u8> {
    frame_der(tag, &parts.concat()).unwrap()
}

fn seq(parts: &[&[u8]]) -> Vec<u8> {
    tlv(0x30, parts)
}

fn integer(bytes: &[u8]) -> Vec<u8> {
    let start = bytes.iter().position(|b| *b != 0).unwrap_or(bytes.len() - 1);
    let mut content = bytes[start..].to_vec();
    if content[0] >= 0x80 {
        content.insert(0, 0);
    }
    tlv(0x02, &[&content])
}

fn ecdsa_der(signer: &SoftwareSigner, data: &[u8]) -> Vec<u8> {
    let raw = signer.sign(data).unwrap();
    assert_eq!(raw.len(), 64);
    seq(&[&integer(&raw[..32]), &integer(&raw[32..])])
}

fn time_field(text: &str) -> Vec<u8> {
    tlv(0x18, &[text.as_bytes()])
}

fn timestamp_token(tsa: &SoftwareSigner, hash: &[u8], at: &str) -> Vec<u8> {
    let imprint = seq(&[&seq(&[SHA256_OID]), &tlv(0x04, &[hash])]);
    let info = seq(&[&integer(&[1]), POLICY, &imprint, &integer(&[7]), &time_field(at)]);
    let attributes = [
        seq(&[CONTENT_TYPE, &tlv(0x31, &[TST_INFO])]),
        seq(&[MESSAGE_DIGEST, &tlv(0x31, &[&tlv(0x04, &[&digest(&info)])])]),
    ]
    .concat();
    let signature = ecdsa_der(tsa, &tlv(0x31, &[&attributes]));
    let cert = parse_certificate(tsa.certificate_der()).unwrap();
    let signer_info = seq(&[
        &integer(&[1]),
        &seq(&[&cert.issuer, &cert.serial]),
        &seq(&[SHA256_OID]),
        &tlv(0xa0, &[&attributes]),
        &seq(&[ECDSA_SHA256_OID]),
        &tlv(0x04, &[&signature]),
    ]);
    let signed_data = seq(&[
        &integer(&[3]),
        &tlv(0x31, &[&seq(&[SHA256_OID])]),
        &seq(&[TST_INFO, &tlv(0xa0, &[&tlv(0x04, &[&info])])]),
        &tlv(0xa0, &[tsa.certificate_der()]),
        &tlv(0x31, &[&signer_info]),
    ]);
    seq(&[SIGNED_DATA, &tlv(0xa0, &[&signed_data])])
}

fn sha1(data: &[u8]) -> Vec<u8> {
    bergshamra_crypto::digest::digest("http://www.w3.org/2000/09/xmldsig#sha1", data).unwrap()
}

fn public_key_hash(cert_der: &[u8]) -> Vec<u8> {
    let cert = x509_cert::Certificate::from_der(cert_der).unwrap();
    sha1(cert.tbs_certificate.subject_public_key_info.subject_public_key.raw_bytes())
}

/// `status` is the certStatus field of the only answer.
fn ocsp_response(issuer: &SoftwareSigner, leaf_der: &[u8], status: &[u8], produced: &str) -> Vec<u8> {
    signed_response(issuer, issuer, leaf_der, status, produced, &[])
}

/// An answer about a certificate of `issuer` that `responder` signs, with further certificates.
fn signed_response(
    issuer: &SoftwareSigner,
    responder: &SoftwareSigner,
    leaf_der: &[u8],
    status: &[u8],
    produced: &str,
    certs: &[&[u8]],
) -> Vec<u8> {
    let issuer_cert = parse_certificate(issuer.certificate_der()).unwrap();
    let leaf = parse_certificate(leaf_der).unwrap();
    let key_hash = public_key_hash(issuer.certificate_der());
    let cert_id = seq(&[
        &seq(&[SHA1_OID, &[0x05, 0x00]]),
        &tlv(0x04, &[&sha1(&issuer_cert.subject)]),
        &tlv(0x04, &[&key_hash]),
        &leaf.serial,
    ]);
    let single = seq(&[
        &cert_id,
        status,
        &time_field(produced),
        &tlv(0xa0, &[&time_field("20260616120000Z")]),
    ]);
    let data = seq(&[
        &tlv(0xa2, &[&tlv(0x04, &[&public_key_hash(responder.certificate_der())])]),
        &time_field(produced),
        &seq(&[&single]),
    ]);
    let signature = ecdsa_der(responder, &data);
    let held = if certs.is_empty() { vec![] } else { tlv(0xa0, &[&seq(certs)]) };
    let basic = seq(&[&data, &seq(&[ECDSA_SHA256_OID]), &tlv(0x03, &[&[0x00], &signature]), &held]);
    seq(&[
        &[0x0a, 0x01, 0x00],
        &tlv(0xa0, &[&seq(&[OCSP_BASIC, &tlv(0x04, &[&basic])])]),
    ])
}

const GOOD: &[u8] = &[0x80, 0x00];

fn digest(data: &[u8]) -> Vec<u8> {
    bergshamra_crypto::digest::digest(xades::ns::SHA256, data).unwrap()
}

fn canonical(xml: &str, ns_uri: &str, local: &str, method: C14nMethod) -> Vec<u8> {
    let doc = parse(xml).unwrap();
    let node = doc.descendants(0, ns_uri, local)[0];
    doc.canonicalize(node, method).unwrap()
}

fn sign(files: &[DataObject], signer: &SoftwareSigner) -> CreatedSignature {
    let mut draft = Draft {
        id: "S0".to_string(),
        c14n_uri: C14N11.to_string(),
        sig_method_uri: signer.algorithm_uri().to_string(),
        digest_uri: signature_digest_uri(signer.algorithm_uri()).unwrap().to_string(),
        files: files
            .iter()
            .map(|f| FileRef {
                uri: encode_reference_uri(f.name),
                mime_type: f.mime_type.to_string(),
                digest: digest(f.content),
            })
            .collect(),
        cert_der: signer.certificate_der().to_vec(),
        signing_time: "2026-01-02T03:04:05Z".to_string(),
        signed_props_digest: None,
        signature_value: None,
        unsigned: None,
    };
    let xml = build_signature_xml(&draft).unwrap();
    let properties = canonical(&xml, xades::ns::XADES, "SignedProperties", C14nMethod::Inclusive);
    draft.signed_props_digest = Some(digest(&properties));
    let xml = build_signature_xml(&draft).unwrap();
    let signed_info = canonical(&xml, xades::ns::DSIG, "SignedInfo", C14nMethod::Inclusive11);
    draft.signature_value = Some(signer.sign(&signed_info).unwrap());
    CreatedSignature::new(draft).unwrap()
}

/// Verifies references and signature value with the outside crates.
struct Core;

fn reference_digest(doc: &Tree, reference: usize) -> Option<Vec<u8>> {
    let value = doc.child(reference, xades::ns::DSIG, "DigestValue")?;
    decode_b64(&doc.text(value))
}

fn signature_verifies(doc: &Tree, sig_node: usize, cert_der: &[u8]) -> Option<bool> {
    let signed_info = doc.child(sig_node, xades::ns::DSIG, "SignedInfo")?;
    let c14n = doc.child(signed_info, xades::ns::DSIG, "CanonicalizationMethod");
    let method = C14nMethod::from_uri(doc.attribute_or_empty(c14n, "Algorithm"))?;
    let algorithm = doc.child(signed_info, xades::ns::DSIG, "SignatureMethod");
    let value = doc.child(sig_node, xades::ns::DSIG, "SignatureValue")?;
    let key = bergshamra_keys::loader::load_x509_cert_der(cert_der).ok()?.to_signing_key()?;
    let alg = bergshamra_crypto::sign::from_uri(doc.attribute_or_empty(algorithm, "Algorithm")).ok()?;
    let covered = doc.canonicalize(signed_info, method)?;
    alg.verify(&key, &covered, &decode_b64(&doc.text(value))?).ok()
}

impl CoreVerifier for Core {
    fn verify_core(&self, doc: &Tree, sig_node: usize, files: &[DataObject<'_>]) -> CoreOutcome {
        let mut errors = Vec::new();
        let mut sp_node = None;
        let mut covered = Vec::new();
        let signed_info = doc.child(sig_node, xades::ns::DSIG, "SignedInfo").unwrap();
        for reference in doc.children(signed_info, xades::ns::DSIG, "Reference") {
            let uri = doc.attribute_or_empty(Some(reference), "URI");
            let found = if doc.attribute(reference, "Type") == Some(xades::ns::TYPE_SIGNED_PROPERTIES) {
                sp_node = doc
                    .descendants(sig_node, xades::ns::XADES, "SignedProperties")
                    .into_iter()
                    .find(|&n| format!("#{}", doc.attribute_or_empty(Some(n), "Id")) == uri);
                let actual = sp_node.and_then(|n| doc.canonicalize(n, C14nMethod::Inclusive));
                if actual.map(|a| digest(&a)) != reference_digest(doc, reference) {
                    errors.push("SignedProperties digest mismatch".to_string());
                }
                continue;
            } else {
                files.iter().find(|f| encode_reference_uri(f.name) == uri)
            };
            match found {
                None => errors.push(format!("no data file for {uri}")),
                Some(file) => {
                    covered.push(file.name);
                    if Some(digest(file.content)) != reference_digest(doc, reference) {
                        errors.push(format!("digest mismatch for {uri}"));
                    }
                }
            }
        }
        for file in files {
            if !covered.contains(&file.name) {
                errors.push(format!("{} is not covered by the signature", file.name));
            }
        }
        let certs: Vec<Vec<u8>> = doc
            .descendants(sig_node, xades::ns::DSIG, "X509Certificate")
            .into_iter()
            .filter_map(|n| decode_b64(&doc.text(n)))
            .collect();
        let cert_der = certs.first().cloned();
        if cert_der.as_deref().and_then(|der| signature_verifies(doc, sig_node, der)) != Some(true) {
            errors.push("signature value does not verify".to_string());
        }
        CoreOutcome {
            sp_node,
            cert_der,
            extra_certs: certs.into_iter().skip(1).collect(),
            errors,
        }
    }
}


fn options_with_anchor(ca_der: &[u8]) -> ValidationOptions {
    ValidationOptions {
        trusted_certs_der: vec![ca_der.to_vec()],
        ..Default::default()
    }
}

fn at(secs: i64) -> Time {
    Time::new(secs, 0).unwrap()
}

fn report(xml: &str, anchor: &[u8], now: Time) -> SignatureValidation {
    let results = validate_at(xml, FILES, &options_with_anchor(anchor), &Core, now).unwrap();
    assert_eq!(results.len(), 1);
    results.into_iter().next().unwrap()
}

fn config(issuers: Vec<Vec<u8>>) -> LtConfig {
    LtConfig {
        tsa_url: "http://tsa.test/".to_string(),
        issuer_certs_der: issuers,
    }
}

fn known_issuer(created: CreatedSignature, config: &LtConfig) -> TimestampRequest {
    match created.extend_to_lt(config).unwrap() {
        LtStart::RequestTimestamp(request) => request,
        LtStart::FetchIssuers(_) => panic!("the issuer was given"),
    }
}

fn stamped(pki: &TestPki, time: &str) -> StatusRequest {
    let request = known_issuer(sign(FILES, &pki.signer), &config(vec![pki.ca_der.clone()]));
    assert_eq!(request.tsa_url(), "http://tsa.test/");
    let token = timestamp_token(&pki.tsa, &request.hash().unwrap(), time);
    request.complete(Ok(token)).unwrap()
}

#[test]
fn timestamped_signature_is_valid() {
    let pki = test_pki();
    let created = sign(FILES, &pki.signer);
    let token = timestamp_token(&pki.tsa, &created.timestamp_hash().unwrap(), "20260615120000Z");
    let xml = created.extend_to_t("http://tsa.test/", Ok(token)).unwrap().into_xml();

    let sig = report(&xml, &pki.ca_der, at(NOON + 999_999));
    assert!(sig.is_valid(), "errors: {:?}", sig.errors);
    assert_eq!(sig.profile, Profile::T);
    assert_eq!(sig.timestamp_time.unwrap().parts(), (NOON, 0));
    assert!(sig.ocsp_time.is_none());
    assert_eq!(
        sig.warnings,
        vec!["T-level signature: no embedded revocation proof for the signer".to_string()]
    );
}

#[test]
fn proved_time_alone_decides() {
    let pki = test_pki();
    let created = sign(FILES, &pki.signer);
    let token = timestamp_token(&pki.tsa, &created.timestamp_hash().unwrap(), "20260615120000Z");
    let xml = created.extend_to_t_with(token).unwrap().into_xml();

    // Long after every certificate has expired.
    let far = at(200_000_000_000);
    assert!(report(&xml, &pki.ca_der, far).is_valid());
    let plain = sign(FILES, &pki.signer).into_xml();
    let errors = report(&plain, &pki.ca_der, far).errors;
    assert_eq!(errors.len(), 1);
    assert!(errors[0].starts_with("certificate chain validation failed: "), "{errors:?}");
}

#[test]
fn timestamp_over_another_signature_fails() {
    let pki = test_pki();
    let token = timestamp_token(&pki.tsa, &digest(b"something else"), "20260615120000Z");
    let xml = sign(FILES, &pki.signer).extend_to_t_with(token).unwrap().into_xml();

    let sig = report(&xml, &pki.ca_der, at(NOON));
    assert_eq!(sig.profile, Profile::T);
    assert!(sig.timestamp_time.is_none());
    assert_eq!(sig.errors.len(), 1);
    assert!(
        sig.errors[0].starts_with("no SignatureTimeStamp verified (#1: signature timestamp invalid: "),
        "{:?}",
        sig.errors
    );
}

#[test]
fn timestamp_of_an_untrusted_service_fails() {
    let pki = test_pki();
    let other = test_pki();
    let created = sign(FILES, &pki.signer);
    let token = timestamp_token(&other.tsa, &created.timestamp_hash().unwrap(), "20260615120000Z");
    let xml = created.extend_to_t_with(token).unwrap().into_xml();

    let sig = report(&xml, &pki.ca_der, at(NOON));
    assert!(sig.errors[0].contains("does not chain to a trust anchor"), "{:?}", sig.errors);
}

#[test]
fn unreadable_token_fails() {
    let pki = test_pki();
    let xml = sign(FILES, &pki.signer).extend_to_t_with(vec![1, 2, 3]).unwrap().into_xml();

    let sig = report(&xml, &pki.ca_der, at(NOON));
    assert!(
        sig.errors[0]
            .starts_with("no SignatureTimeStamp verified (#1: timestamp token does not parse: "),
        "{:?}",
        sig.errors
    );
}

#[test]
fn extended_signature_is_valid() {
    let pki = test_pki();
    let request = stamped(&pki, "20260615120000Z");
    assert_eq!(request.issuer_der(), &pki.ca_der[..]);
    assert_eq!(request.certificate_der(), pki.signer.certificate_der());
    let response = ocsp_response(&pki.ca, request.certificate_der(), GOOD, "20260615120100Z");
    let xml = request
        .complete(Ok((response, vec![4, 1, 9])), at(NOON + 300))
        .unwrap()
        .into_xml();

    let sig = report(&xml, &pki.ca_der, at(NOON + 600));
    assert!(sig.is_valid(), "errors: {:?}", sig.errors);
    assert!(sig.warnings.is_empty(), "warnings: {:?}", sig.warnings);
    assert_eq!(sig.profile, Profile::LT);
    assert_eq!(sig.timestamp_time.unwrap().parts(), (NOON, 0));
    assert_eq!(sig.ocsp_time.unwrap().parts(), (NOON + 60, 0));
}

#[test]
fn early_response_is_reported() {
    let pki = test_pki();
    let request = stamped(&pki, "20260615120000Z");
    let response = ocsp_response(&pki.ca, request.certificate_der(), GOOD, "20260615115900Z");
    let xml = request.complete(Ok((response, vec![])), at(NOON)).unwrap().into_xml();

    let sig = report(&xml, &pki.ca_der, at(NOON));
    assert_eq!(
        sig.errors,
        vec![
            "OCSP proof (2026-06-15 11:59:00 UTC) predates the signature timestamp \
             (2026-06-15 12:00:00 UTC)"
                .to_string()
        ]
    );
}

#[test]
fn revoked_certificate_is_not_extended() {
    let pki = test_pki();
    let revoked = tlv(0xa1, &[&time_field("20260601000000Z")]);
    let request = stamped(&pki, "20260615120000Z");
    let response = ocsp_response(&pki.ca, request.certificate_der(), &revoked, "20260615120100Z");
    match request.complete(Ok((response, vec![])), at(NOON + 300)) {
        Err(LibError::Ocsp(message)) => assert!(
            message.starts_with("signer certificate revocation status is not good: Revoked"),
            "{message}"
        ),
        _ => panic!("a revoked certificate was accepted"),
    }
}

#[test]
fn revoked_certificate_is_reported() {
    let pki = test_pki();
    let created = sign(FILES, &pki.signer);
    let token = timestamp_token(&pki.tsa, &created.timestamp_hash().unwrap(), "20260615120000Z");
    let revoked = tlv(0xa1, &[&time_field("20260601000000Z")]);
    let response =
        ocsp_response(&pki.ca, pki.signer.certificate_der(), &revoked, "20260615120100Z");
    let xml = created
        .extend_to_lt_with(token, vec![response], vec![pki.ca_der.clone()])
        .unwrap()
        .into_xml();

    let sig = report(&xml, &pki.ca_der, at(NOON));
    assert_eq!(sig.errors.len(), 1);
    assert!(sig.errors[0].starts_with("revocation status: Revoked"), "{:?}", sig.errors);
    assert!(sig.ocsp_time.is_none());
}

#[test]
fn unreadable_response_is_reported() {
    let pki = test_pki();
    let created = sign(FILES, &pki.signer);
    let token = timestamp_token(&pki.tsa, &created.timestamp_hash().unwrap(), "20260615120000Z");
    let xml = created
        .extend_to_lt_with(token, vec![vec![1, 2, 3]], vec![pki.ca_der.clone()])
        .unwrap()
        .into_xml();

    let sig = report(&xml, &pki.ca_der, at(NOON));
    assert_eq!(sig.errors.len(), 1);
    assert!(sig.errors[0].starts_with("OCSP response: "), "{:?}", sig.errors);
}

#[test]
fn several_responses_are_reported() {
    let pki = test_pki();
    let created = sign(FILES, &pki.signer);
    let token = timestamp_token(&pki.tsa, &created.timestamp_hash().unwrap(), "20260615120000Z");
    let good = ocsp_response(&pki.ca, pki.signer.certificate_der(), GOOD, "20260615120100Z");
    let xml = created
        .extend_to_lt_with(token, vec![good.clone(), good], vec![pki.ca_der.clone()])
        .unwrap()
        .into_xml();

    let sig = report(&xml, &pki.ca_der, at(NOON));
    assert_eq!(sig.errors, vec!["multiple OCSP responses not supported".to_string()]);
}

#[test]
fn response_without_an_issuer_certificate_is_reported() {
    let pki = test_pki();
    let created = sign(FILES, &pki.signer);
    let token = timestamp_token(&pki.tsa, &created.timestamp_hash().unwrap(), "20260615120000Z");
    let good = ocsp_response(&pki.ca, pki.signer.certificate_der(), GOOD, "20260615120100Z");
    let xml = created.extend_to_lt_with(token, vec![good], vec![]).unwrap().into_xml();

    let sig = report(&xml, &pki.ca_der, at(NOON));
    assert_eq!(
        sig.errors,
        vec!["cannot verify OCSP: issuer certificate is missing".to_string()]
    );
}

#[test]
fn response_by_an_issuer_without_an_anchor_is_reported() {
    let pki = test_pki();
    let namesake = test_pki();
    let created = sign(FILES, &pki.signer);
    let token = timestamp_token(&pki.tsa, &created.timestamp_hash().unwrap(), "20260615120000Z");
    let response =
        ocsp_response(&namesake.ca, pki.signer.certificate_der(), GOOD, "20260615120100Z");
    let xml = created
        .extend_to_lt_with(token, vec![response], vec![namesake.ca_der.clone()])
        .unwrap()
        .into_xml();

    let sig = report(&xml, &pki.ca_der, at(NOON));
    assert!(
        sig.errors.iter().any(|e| e.starts_with("OCSP issuer: ")),
        "{:?}",
        sig.errors
    );
    assert!(sig.ocsp_time.is_none());
}

#[test]
fn response_by_a_forged_namesake_is_not_accepted() {
    let pki = test_pki();
    let namesake = test_pki();
    let extended = |responder: &SoftwareSigner, held: &[u8]| {
        let created = sign(FILES, &pki.signer);
        let token =
            timestamp_token(&pki.tsa, &created.timestamp_hash().unwrap(), "20260615120000Z");
        let response = signed_response(
            &pki.ca,
            responder,
            pki.signer.certificate_der(),
            GOOD,
            "20260615120100Z",
            &[held],
        );
        let xml = created
            .extend_to_lt_with(token, vec![response], vec![pki.ca_der.clone()])
            .unwrap()
            .into_xml();
        report(&xml, &pki.ca_der, at(NOON))
    };
    let own = extended(&pki.ca, &pki.ca_der);
    assert_eq!(own.errors, Vec::<String>::new());
    assert!(own.ocsp_time.is_some());

    let forged = extended(&namesake.ca, &namesake.ca_der);
    assert_eq!(forged.errors.len(), 1, "{:?}", forged.errors);
    assert!(forged.errors[0].starts_with("OCSP issuer: "), "{:?}", forged.errors);
    assert!(forged.ocsp_time.is_none());
}

fn named_ca(name: &str) -> CertificateParams {
    let mut params = CertificateParams::new(Vec::<String>::new()).unwrap();
    params.distinguished_name.push(DnType::CommonName, name);
    params.is_ca = IsCa::Ca(BasicConstraints::Unconstrained);
    params.key_usages = vec![KeyUsagePurpose::KeyCertSign, KeyUsagePurpose::CrlSign];
    params
}

#[test]
fn issuer_may_chain_through_a_certificate_of_the_response() {
    let root = CertifiedIssuer::self_signed(named_ca("Root"), KeyPair::generate().unwrap()).unwrap();
    let upper_key = KeyPair::generate().unwrap();
    let upper = CertifiedIssuer::signed_by(named_ca("Upper"), upper_key, &root).unwrap();
    let lower_key = KeyPair::generate().unwrap();
    let lower_pem = lower_key.serialize_pem();
    let lower = CertifiedIssuer::signed_by(named_ca("Lower"), lower_key, &upper).unwrap();
    let lower_signer = SoftwareSigner::from_pem(lower_pem.as_bytes(), lower.der(), None).unwrap();

    let tsa_key = KeyPair::generate().unwrap();
    let mut tsa_params = CertificateParams::new(Vec::<String>::new()).unwrap();
    tsa_params.distinguished_name.push(DnType::CommonName, "Test TSA");
    tsa_params.key_usages = vec![KeyUsagePurpose::DigitalSignature];
    let mut eku = CustomExtension::from_oid_content(&[2, 5, 29, 37], TIME_STAMPING_EKU.to_vec());
    eku.set_criticality(true);
    tsa_params.custom_extensions = vec![eku];
    let tsa_cert = tsa_params.signed_by(&tsa_key, &root).unwrap();
    let tsa =
        SoftwareSigner::from_pem(tsa_key.serialize_pem().as_bytes(), tsa_cert.der(), None).unwrap();

    let leaf_key = KeyPair::generate().unwrap();
    let mut leaf_params = CertificateParams::new(Vec::<String>::new()).unwrap();
    leaf_params.distinguished_name.push(DnType::CommonName, "Test Signer");
    leaf_params.key_usages = vec![
        KeyUsagePurpose::DigitalSignature,
        KeyUsagePurpose::ContentCommitment,
    ];
    let leaf_cert = leaf_params.signed_by(&leaf_key, &lower).unwrap();
    let signer =
        SoftwareSigner::from_pem(leaf_key.serialize_pem().as_bytes(), leaf_cert.der(), None).unwrap();

    let extended = |held: &[&[u8]]| {
        let created = sign(FILES, &signer);
        let token = timestamp_token(&tsa, &created.timestamp_hash().unwrap(), "20260615120000Z");
        let response = signed_response(
            &lower_signer,
            &lower_signer,
            signer.certificate_der(),
            GOOD,
            "20260615120100Z",
            held,
        );
        let xml = created
            .extend_to_lt_with(token, vec![response], vec![lower.der().to_vec()])
            .unwrap()
            .into_xml();
        report(&xml, root.der(), at(NOON))
    };
    let with_upper = extended(&[upper.der()]);
    assert_eq!(with_upper.errors, Vec::<String>::new());
    assert_eq!(with_upper.ocsp_time.unwrap().parts(), (NOON + 60, 0));

    let without = extended(&[]);
    assert!(without.errors[0].starts_with("OCSP issuer: "), "{:?}", without.errors);
    assert!(without.ocsp_time.is_none());
}

#[test]
fn asked_time_changes_nothing_where_a_time_is_proved() {
    let pki = test_pki();
    let created = sign(FILES, &pki.signer);
    let token = timestamp_token(&pki.tsa, &created.timestamp_hash().unwrap(), "20260615120000Z");
    let xml = created.extend_to_t_with(token).unwrap().into_xml();

    let mut options = options_with_anchor(&pki.ca_der);
    let run = |options: &ValidationOptions, now: i64| {
        let mut results = validate_at(&xml, FILES, options, &Core, at(now)).unwrap();
        let sig = results.remove(0);
        (sig.errors, sig.warnings, sig.timestamp_time.unwrap().parts())
    };
    let unasked = run(&options, NOON);
    assert_eq!(run(&options, 200_000_000_000), unasked);
    for secs in [0, NOON, 200_000_000_000] {
        options.validation_time = Some(at(secs));
        assert_eq!(run(&options, NOON), unasked);
    }
}

#[test]
fn unparseable_certificate_values_are_reported() {
    let pki = test_pki();
    let created = sign(FILES, &pki.signer);
    let token = timestamp_token(&pki.tsa, &created.timestamp_hash().unwrap(), "20260615120000Z");
    let good = ocsp_response(&pki.ca, pki.signer.certificate_der(), GOOD, "20260615120100Z");
    let xml = created
        .extend_to_lt_with(token, vec![good], vec![vec![9], pki.ca_der.clone()])
        .unwrap()
        .into_xml();

    let sig = report(&xml, &pki.ca_der, at(NOON));
    assert_eq!(sig.errors, vec!["unparseable encapsulated certificate".to_string()]);
    assert_eq!(sig.ocsp_time.unwrap().parts(), (NOON + 60, 0));
}

#[test]
fn issuers_are_fetched_where_none_is_given() {
    let pki = test_pki();
    let other = test_pki();
    let created = sign(FILES, &pki.signer);
    let fetch = match created.extend_to_lt(&config(vec![])).unwrap() {
        LtStart::FetchIssuers(fetch) => fetch,
        LtStart::RequestTimestamp(_) => panic!("no issuer was given"),
    };
    assert_eq!(fetch.certificate_der(), pki.signer.certificate_der());
    let chain = vec![pki.signer.certificate_der().to_vec(), pki.ca_der.clone()];
    let request = fetch.complete(Ok(chain)).unwrap();
    let token = timestamp_token(&pki.tsa, &request.hash().unwrap(), "20260615120000Z");
    let status = request.complete(Ok(token)).unwrap();
    assert_eq!(status.issuer_der(), &pki.ca_der[..]);

    // The certificate of the timestamping service is no issuer of anything.
    let created = sign(FILES, &other.signer);
    match created.extend_to_lt(&config(vec![other.tsa.certificate_der().to_vec()])).unwrap() {
        LtStart::FetchIssuers(fetch) => match fetch.complete(Ok(vec![])) {
            Err(LibError::Certificate(message)) => assert_eq!(
                message,
                "no issuer certificate provided for CN=Test CA and caIssuers discovery found none"
            ),
            _ => panic!("an issuer was found"),
        },
        LtStart::RequestTimestamp(_) => panic!("an issuer was found"),
    }
}

#[test]
fn failures_of_services_are_told_apart() {
    let pki = test_pki();
    let created = sign(FILES, &pki.signer);
    match created.extend_to_t("http://tsa.test/", Err("no answer".to_string())) {
        Err(LibError::Timestamp(m)) => assert_eq!(m, "TSA http://tsa.test/: no answer"),
        _ => panic!("a time-stamp was found"),
    }
    let request = known_issuer(sign(FILES, &pki.signer), &config(vec![pki.ca_der.clone()]));
    match request.complete(Err("no answer".to_string())) {
        Err(LibError::Timestamp(m)) => assert_eq!(m, "TSA http://tsa.test/: no answer"),
        _ => panic!("a time-stamp was found"),
    }
    match stamped(&pki, "20260615120000Z").complete(Err("refused".to_string()), at(NOON)) {
        Err(LibError::Ocsp(m)) => assert_eq!(m, "OCSP fetch: refused"),
        _ => panic!("a response was found"),
    }
    match stamped(&pki, "20260615120000Z").complete(Ok((vec![5], vec![])), at(NOON)) {
        Err(LibError::Ocsp(m)) => assert!(m.starts_with("OCSP response invalid: "), "{m}"),
        _ => panic!("a response was found"),
    }
    let created = sign(FILES, &pki.signer);
    match created.extend_to_lt(&config(vec![])).unwrap() {
        LtStart::FetchIssuers(fetch) => match fetch.complete(Err("offline".to_string())) {
            Err(LibError::Certificate(m)) => assert_eq!(m, "AIA issuer fetch: offline"),
            _ => panic!("an issuer was found"),
        },
        LtStart::RequestTimestamp(_) => panic!("no issuer was given"),
    }
}

#[test]
fn extension_inserts_and_changes_nothing_else() {
    let pki = test_pki();
    let created = || CreatedSignature::new(Draft {
        id: "S0".to_string(),
        c14n_uri: C14N11.to_string(),
        sig_method_uri: "m".to_string(),
        digest_uri: xades::ns::SHA256.to_string(),
        files: vec![],
        cert_der: pki.ca_der.clone(),
        signing_time: "t".to_string(),
        signed_props_digest: None,
        signature_value: Some(vec![1, 2]),
        unsigned: None,
    })
    .unwrap();
    let short = created().into_xml();
    let long = created().extend_to_t_with(vec![7]).unwrap().into_xml();
    let start = long.find("<xades:UnsignedProperties>").unwrap();
    let end = long.find("</xades:UnsignedProperties>").unwrap() + "</xades:UnsignedProperties>".len();
    assert_eq!(format!("{}{}", &long[..start], &long[end..]), short);
}
