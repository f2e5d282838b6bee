use rcgen::{
    BasicConstraints, CertificateParams, CertifiedIssuer, DnType, IsCa, KeyPair, KeyUsagePurpose,
};
use xades::codec::{decode_b64, encode_reference_uri};
use xades::crypto::signature_digest_uri;
use xades::sig::template::{build_signature_xml, Draft, FileRef};
use xades::validate::{validate_at, CoreOutcome, CoreVerifier};
use xades::xml::input::{parse, C14nMethod, C14N11};
use xades::xml::tree::Tree;
use xades::{
    validate, CreatedSignature, DataObject, Profile, SignatureValidation, Signer, SoftwareSigner,
    Time, ValidationOptions,
};

const FILES: &[DataObject<'static>] = &[
    DataObject {
        name: "test file.txt",
        mime_type: "text/plain",
        content: b"This is a test file.\n",
    },
    DataObject {
        name: "data.bin",
        mime_type: "application/octet-stream",
        content: &[1, 2, 3, 4],
    },
];

struct TestPki {
    ca_der: Vec<u8>,
    signer: SoftwareSigner,
}

fn test_pki() -> TestPki {
    let ca_key = KeyPair::generate().unwrap();
    let mut ca_params = CertificateParams::new(Vec::<String>::new()).unwrap();
    ca_params
        .distinguished_name
        .push(DnType::CommonName, "Test CA");
    ca_params.is_ca = IsCa::Ca(BasicConstraints::Unconstrained);
    ca_params.key_usages = vec![KeyUsagePurpose::KeyCertSign, KeyUsagePurpose::CrlSign];
    let ca = CertifiedIssuer::self_signed(ca_params, ca_key).unwrap();

    let leaf_key = KeyPair::generate().unwrap();
    let mut leaf_params = CertificateParams::new(Vec::<String>::new()).unwrap();
    leaf_params
        .distinguished_name
        .push(DnType::CommonName, "Test Signer");
    leaf_params.key_usages = vec![
        KeyUsagePurpose::DigitalSignature,
        KeyUsagePurpose::ContentCommitment,
    ];
    let leaf_cert = leaf_params.signed_by(&leaf_key, &ca).unwrap();

    TestPki {
        ca_der: ca.der().to_vec(),
        signer: SoftwareSigner::from_pem(
            leaf_key.serialize_pem().as_bytes(),
            leaf_cert.der(),
            None,
        )
        .unwrap(),
    }
}

fn digest(data: &[u8]) -> Vec<u8> {
    bergshamra_crypto::digest::digest(xades::ns::SHA256, data).unwrap()
}

fn canonical(xml: &str, ns_uri: &str, local: &str, method: C14nMethod) -> Vec<u8> {
    let doc = parse(xml).unwrap();
    let node = doc.descendants(0, ns_uri, local)[0];
    doc.canonicalize(node, method).unwrap()
}

fn sign(files: &[DataObject], signer: &SoftwareSigner) -> CreatedSignature {
    let mut draft = Draft {
        id: "S0".to_string(),
        c14n_uri: C14N11.to_string(),
        sig_method_uri: signer.algorithm_uri().to_string(),
        digest_uri: signature_digest_uri(signer.algorithm_uri()).unwrap().to_string(),
        files: files
            .iter()
            .map(|f| FileRef {
                uri: encode_reference_uri(f.name),
                mime_type: f.mime_type.to_string(),
                digest: digest(f.content),
            })
            .collect(),
        cert_der: signer.certificate_der().to_vec(),
        signing_time: "2026-01-02T03:04:05Z".to_string(),
        signed_props_digest: None,
        signature_value: None,
        unsigned: None,
    };
    let xml = build_signature_xml(&draft).unwrap();
    let properties = canonical(&xml, xades::ns::XADES, "SignedProperties", C14nMethod::Inclusive);
    draft.signed_props_digest = Some(digest(&properties));
    let xml = build_signature_xml(&draft).unwrap();
    let signed_info = canonical(&xml, xades::ns::DSIG, "SignedInfo", C14nMethod::Inclusive11);
    draft.signature_value = Some(signer.sign(&signed_info).unwrap());
    CreatedSignature::new(draft).unwrap()
}

/// Verifies references and signature value with the outside crates.
struct Core;

fn reference_digest(doc: &Tree, reference: usize) -> Option<Vec<u8>> {
    let value = doc.child(reference, xades::ns::DSIG, "DigestValue")?;
    decode_b64(&doc.text(value))
}

fn signature_verifies(doc: &Tree, sig_node: usize, cert_der: &[u8]) -> Option<bool> {
    let signed_info = doc.child(sig_node, xades::ns::DSIG, "SignedInfo")?;
    let c14n = doc.child(signed_info, xades::ns::DSIG, "CanonicalizationMethod");
    let method = C14nMethod::from_uri(doc.attribute_or_empty(c14n, "Algorithm"))?;
    let algorithm = doc.child(signed_info, xades::ns::DSIG, "SignatureMethod");
    let value = doc.child(sig_node, xades::ns::DSIG, "SignatureValue")?;
    let key = bergshamra_keys::loader::load_x509_cert_der(cert_der).ok()?.to_signing_key()?;
    let alg = bergshamra_crypto::sign::from_uri(doc.attribute_or_empty(algorithm, "Algorithm")).ok()?;
    let covered = doc.canonicalize(signed_info, method)?;
    alg.verify(&key, &covered, &decode_b64(&doc.text(value))?).ok()
}

impl CoreVerifier for Core {
    fn verify_core(&self, doc: &Tree, sig_node: usize, files: &[DataObject<'_>]) -> CoreOutcome {
        let mut errors = Vec::new();
        let mut sp_node = None;
        let mut covered = Vec::new();
        let signed_info = doc.child(sig_node, xades::ns::DSIG, "SignedInfo").unwrap();
        for reference in doc.children(signed_info, xades::ns::DSIG, "Reference") {
            let uri = doc.attribute_or_empty(Some(reference), "URI");
            let found = if doc.attribute(reference, "Type") == Some(xades::ns::TYPE_SIGNED_PROPERTIES) {
                sp_node = doc
                    .descendants(sig_node, xades::ns::XADES, "SignedProperties")
                    .into_iter()
                    .find(|&n| format!("#{}", doc.attribute_or_empty(Some(n), "Id")) == uri);
                let actual = sp_node.and_then(|n| doc.canonicalize(n, C14nMethod::Inclusive));
                if actual.map(|a| digest(&a)) != reference_digest(doc, reference) {
                    errors.push("SignedProperties digest mismatch".to_string());
                }
                continue;
            } else {
                files.iter().find(|f| encode_reference_uri(f.name) == uri)
            };
            match found {
                None => errors.push(format!("no data file for {uri}")),
                Some(file) => {
                    covered.push(file.name);
                    if Some(digest(file.content)) != reference_digest(doc, reference) {
                        errors.push(format!("digest mismatch for {uri}"));
                    }
                }
            }
        }
        for file in files {
            if !covered.contains(&file.name) {
                errors.push(format!("{} is not covered by the signature", file.name));
            }
        }
        let certs: Vec<Vec<u8>> = doc
            .descendants(sig_node, xades::ns::DSIG, "X509Certificate")
            .into_iter()
            .filter_map(|n| decode_b64(&doc.text(n)))
            .collect();
        let cert_der = certs.first().cloned();
        if cert_der.as_deref().and_then(|der| signature_verifies(doc, sig_node, der)) != Some(true) {
            errors.push("signature value does not verify".to_string());
        }
        CoreOutcome {
            sp_node,
            cert_der,
            extra_certs: certs.into_iter().skip(1).collect(),
            errors,
        }
    }
}

fn signed_xml(pki: &TestPki) -> String {
    sign(FILES, &pki.signer).into_xml()
}

fn options_with_anchor(ca_der: &[u8]) -> ValidationOptions {
    ValidationOptions {
        trusted_certs_der: vec![ca_der.to_vec()],
        ..Default::default()
    }
}

fn single(results: Vec<SignatureValidation>) -> SignatureValidation {
    assert_eq!(results.len(), 1);
    results.into_iter().next().unwrap()
}

#[test]
fn valid_signature_round_trip() {
    let pki = test_pki();
    let xml = signed_xml(&pki);

    let sig = single(validate(&xml, FILES, &options_with_anchor(&pki.ca_der), &Core).unwrap());
    assert!(sig.is_valid(), "unexpected errors: {:?}", sig.errors);
    assert_eq!(sig.profile, Profile::B);
    assert_eq!(sig.signature_id.as_deref(), Some("S0"));
    assert!(
        sig.signer_subject
            .as_deref()
            .unwrap()
            .contains("Test Signer")
    );
    assert!(sig.claimed_signing_time.is_some());
    assert!(sig.warnings.is_empty(), "warnings: {:?}", sig.warnings);
}

#[test]
fn tampered_data_file_fails() {
    let pki = test_pki();
    let xml = signed_xml(&pki);

    let tampered = [DataObject {
        name: "test file.txt",
        mime_type: "text/plain",
        content: b"This is NOT a test file.\n",
    }];
    let sig = single(validate(&xml, &tampered, &options_with_anchor(&pki.ca_der), &Core).unwrap());
    assert!(!sig.is_valid());
    assert!(
        sig.errors.iter().any(|e| e.contains("digest mismatch")),
        "errors: {:?}",
        sig.errors
    );
}

#[test]
fn unsigned_extra_file_fails() {
    let pki = test_pki();
    let xml = signed_xml(&pki);

    let with_extra = [
        FILES[0],
        DataObject {
            name: "sneaky.txt",
            mime_type: "text/plain",
            content: b"added later",
        },
    ];
    let sig =
        single(validate(&xml, &with_extra, &options_with_anchor(&pki.ca_der), &Core).unwrap());
    assert!(
        sig.errors.iter().any(|e| e.contains("not covered")),
        "errors: {:?}",
        sig.errors
    );
}

#[test]
fn untrusted_chain_fails() {
    let pki = test_pki();
    let other = test_pki();
    let xml = signed_xml(&pki);

    let sig = single(validate(&xml, FILES, &options_with_anchor(&other.ca_der), &Core).unwrap());
    assert!(!sig.is_valid());
    assert!(
        sig.errors.iter().any(|e| e.contains("chain")),
        "errors: {:?}",
        sig.errors
    );
}

#[test]
fn tampered_signing_time_fails() {
    let pki = test_pki();
    let xml = signed_xml(&pki);

    let idx = xml.find("<xades:SigningTime>").unwrap() + "<xades:SigningTime>".len();
    let mut chars: Vec<char> = xml.chars().collect();
    chars[idx + 3] = if chars[idx + 3] == '1' { '2' } else { '1' };
    let tampered_xml: String = chars.into_iter().collect();

    let sig =
        single(validate(&tampered_xml, FILES, &options_with_anchor(&pki.ca_der), &Core).unwrap());
    assert!(
        sig.errors
            .iter()
            .any(|e| e.contains("SignedProperties digest")),
        "errors: {:?}",
        sig.errors
    );
}

#[test]
fn asked_time_decides_for_plain_signatures() {
    let pki = test_pki();
    let xml = signed_xml(&pki);
    let mut options = options_with_anchor(&pki.ca_der);
    let errors_at = |options: &ValidationOptions, now: i64| {
        let now = Time::new(now, 0).unwrap();
        single(validate_at(&xml, FILES, options, &Core, now).unwrap()).errors
    };
    assert_eq!(errors_at(&options, 1_767_323_045), Vec::<String>::new());
    assert!(errors_at(&options, 0)[0].starts_with("certificate chain validation failed: "));

    options.validation_time = Time::new(1_767_323_045, 0);
    assert_eq!(errors_at(&options, 0), Vec::<String>::new());
    options.validation_time = Time::new(0, 0);
    assert_eq!(errors_at(&options, 0), errors_at(&options, 1_767_323_045));
    assert!(errors_at(&options, 0)[0].starts_with("certificate chain validation failed: "));
    options.validation_time = Time::new(-1, 0);
    assert_eq!(
        errors_at(&options, 1_767_323_045),
        vec!["validation time out of range: 1969-12-31 23:59:59 UTC"]
    );
}
