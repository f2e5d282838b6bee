use rcgen::{CertificateParams, KeyPair};
use xades::codec::{encode_b64, frame_der};
use xades::crypto::container::{check_document, check_scrypt};
use xades::crypto::pkcs11::{
    certificate_err, scheme_for_certificate, scheme_for_key, EcCurve, KeyError, KeyLocator,
    KeySelect, Pkcs11Options, Pkcs11Signer, SignScheme, SlotSelect, SlotSelector,
};
use xades::crypto::signature_digest_uri;
use xades::crypto::software::{
    default_algorithm, find_rsa_method, first_certificate, signature_result, RsaHash, KeyKind, Padding,
};
use xades::{LibError, Signer, SoftwareSigner};

fn key_and_cert(curve: &'static rcgen::SignatureAlgorithm) -> (KeyPair, Vec<u8>) {
    let key = KeyPair::generate_for(curve).unwrap();
    let cert = CertificateParams::new(vec!["a.test".to_string()])
        .unwrap()
        .self_signed(&key)
        .unwrap();
    let der = cert.der().to_vec();
    (key, der)
}

fn pem(der: &[u8]) -> String {
    let body = encode_b64(der);
    let lines: Vec<&str> = (0..body.len())
        .step_by(64)
        .map(|i| &body[i..body.len().min(i + 64)])
        .collect();
    format!(
        "-----BEGIN CERTIFICATE-----\n{}\n-----END CERTIFICATE-----\n",
        lines.join("\n")
    )
}

fn verifies(cert_der: &[u8], uri: &str, data: &[u8], signature: &[u8]) -> bool {
    let key = bergshamra_keys::loader::load_x509_cert_der(cert_der)
        .unwrap()
        .to_signing_key()
        .unwrap();
    bergshamra_crypto::sign::from_uri(uri).unwrap().verify(&key, data, signature).unwrap()
}

#[test]
fn signer_from_pem_signs_by_the_method_of_its_curve() {
    for (curve, uri) in [
        (&rcgen::PKCS_ECDSA_P256_SHA256, xades::ns::ECDSA_SHA256),
        (&rcgen::PKCS_ECDSA_P384_SHA384, xades::ns::ECDSA_SHA384),
    ] {
        let (key, der) = key_and_cert(curve);
        let signer =
            SoftwareSigner::from_pem(key.serialize_pem().as_bytes(), &der, None).unwrap();
        assert_eq!(signer.algorithm_uri(), uri);
        assert_eq!(signer.certificate_der(), der);
        let signature = signer.sign(b"data").unwrap();
        assert!(verifies(&der, uri, b"data", &signature));
        assert!(!verifies(&der, uri, b"date", &signature));
    }
}

#[test]
fn certificate_may_be_pem() {
    let (key, der) = key_and_cert(&rcgen::PKCS_ECDSA_P256_SHA256);
    let (_, other) = key_and_cert(&rcgen::PKCS_ECDSA_P256_SHA256);
    let chain = format!("{}{}", pem(&der), pem(&other));
    let signer =
        SoftwareSigner::from_pem(key.serialize_pem().as_bytes(), chain.as_bytes(), None).unwrap();
    assert_eq!(signer.certificate_der(), der);
}

#[test]
fn broken_certificate_pem_is_refused() {
    let (key, _) = key_and_cert(&rcgen::PKCS_ECDSA_P256_SHA256);
    match SoftwareSigner::from_pem(key.serialize_pem().as_bytes(), b"-----BEGIN?", None) {
        Err(LibError::Certificate(m)) => assert!(m.starts_with("certificate PEM: "), "{m}"),
        _ => panic!("broken PEM was accepted"),
    }
}

#[test]
fn unreadable_keys_are_refused() {
    for text in ["", "no key"] {
        match SoftwareSigner::from_pem(text.as_bytes(), &[], None) {
            Err(LibError::Crypto(m)) => assert!(m.starts_with("private key: "), "{m}"),
            _ => panic!("text passed for a key"),
        }
    }
}

#[test]
fn public_keys_cannot_sign() {
    let (key, der) = key_and_cert(&rcgen::PKCS_ECDSA_P256_SHA256);
    match SoftwareSigner::from_pem(key.public_key_pem().as_bytes(), &der, None) {
        Err(LibError::Unsupported(m)) => {
            assert_eq!(m, "only RSA and ECDSA P-256/P-384/P-521 keys are supported")
        }
        _ => panic!("a public key was accepted"),
    }
}

#[test]
fn other_methods_can_be_asked_for() {
    let (key, der) = key_and_cert(&rcgen::PKCS_ECDSA_P256_SHA256);
    let signer = SoftwareSigner::from_pem(key.serialize_pem().as_bytes(), &der, None)
        .unwrap()
        .with_algorithm(xades::ns::ECDSA_SHA512);
    assert_eq!(signer.algorithm_uri(), xades::ns::ECDSA_SHA512);
    assert_eq!(signer.certificate_der(), der);
    let signer = signer.with_algorithm("urn:none".to_string());
    match signer.sign(b"data") {
        Err(LibError::Crypto(m)) => assert!(m.contains("urn:none"), "{m}"),
        _ => panic!("an unknown method signed"),
    }
}

fn tlv(tag: u8, parts: &[&[u8]]) -> Vec<u8> {
    frame_der(tag, &parts.concat()).unwrap()
}

fn bag(kind: u8, content: &[u8]) -> Vec<u8> {
    let oid = [0x2a, 0x86, 0x48, 0x86, 0xf7, 0x0d, 0x01, 0x0c, 0x0a, 0x01, kind];
    tlv(0x30, &[&tlv(0x06, &[&oid]), &tlv(0xa0, &[content])])
}

fn cert_bag(der: &[u8]) -> Vec<u8> {
    let oid = [0x2a, 0x86, 0x48, 0x86, 0xf7, 0x0d, 0x01, 0x09, 0x16, 0x01];
    let held = tlv(0xa0, &[&tlv(0x04, &[der])]);
    bag(3, &tlv(0x30, &[&tlv(0x06, &[&oid]), &held]))
}

fn data_info(content: &[u8]) -> Vec<u8> {
    let oid = [0x2a, 0x86, 0x48, 0x86, 0xf7, 0x0d, 0x01, 0x07, 0x01];
    tlv(0x30, &[&tlv(0x06, &[&oid]), &tlv(0xa0, &[&tlv(0x04, &[content])])])
}

/// A bundle without encryption and without a checksum.
fn bundle(key: &KeyPair, certs: &[&[u8]]) -> Vec<u8> {
    bundle_of(&key.serialize_der(), certs)
}

fn bundle_of(key_der: &[u8], certs: &[&[u8]]) -> Vec<u8> {
    let mut bags = bag(1, key_der);
    for der in certs {
        bags.extend(cert_bag(der));
    }
    let safe = tlv(0x30, &[&data_info(&tlv(0x30, &[&bags]))]);
    tlv(0x30, &[&[0x02, 0x01, 0x03], &data_info(&safe)])
}

#[test]
fn signer_from_a_bundle_takes_the_first_certificate() {
    let (key, der) = key_and_cert(&rcgen::PKCS_ECDSA_P384_SHA384);
    let (_, other) = key_and_cert(&rcgen::PKCS_ECDSA_P256_SHA256);
    let signer = SoftwareSigner::from_pkcs12(&bundle(&key, &[&der, &other]), "").unwrap();
    assert_eq!(signer.certificate_der(), der);
    assert_eq!(signer.algorithm_uri(), xades::ns::ECDSA_SHA384);
    let signature = signer.sign(b"data").unwrap();
    assert!(verifies(&der, xades::ns::ECDSA_SHA384, b"data", &signature));
}

#[test]
fn bundles_need_a_certificate() {
    let (key, _) = key_and_cert(&rcgen::PKCS_ECDSA_P256_SHA256);
    match SoftwareSigner::from_pkcs12(&bundle(&key, &[]), "") {
        Err(LibError::Certificate(m)) => assert_eq!(m, "PKCS#12 bundle has no certificate"),
        _ => panic!("a bundle without a certificate was accepted"),
    }
}

#[test]
fn unreadable_bundles_are_refused() {
    match SoftwareSigner::from_pkcs12(b"no bundle", "secret") {
        Err(LibError::Crypto(m)) => assert!(m.starts_with("PKCS#12: "), "{m}"),
        _ => panic!("text passed for a bundle"),
    }
}

#[test]
fn methods_follow_the_kind_of_key() {
    for (kind, uri) in [
        (KeyKind::Rsa, xades::ns::RSA_SHA256),
        (KeyKind::EcP256, xades::ns::ECDSA_SHA256),
        (KeyKind::EcP384, xades::ns::ECDSA_SHA384),
        (KeyKind::EcP521, xades::ns::ECDSA_SHA512),
    ] {
        assert_eq!(default_algorithm(kind).unwrap(), uri);
    }
    assert!(matches!(default_algorithm(KeyKind::Other), Err(LibError::Unsupported(_))));
}

#[test]
fn digests_follow_the_signature_method() {
    for (method, digest) in [
        (xades::ns::RSA_SHA256, xades::ns::SHA256),
        (xades::ns::ECDSA_SHA256, xades::ns::SHA256),
        (xades::ns::RSA_SHA384, xades::ns::SHA384),
        (xades::ns::ECDSA_SHA384, xades::ns::SHA384),
        (xades::ns::RSA_SHA512, xades::ns::SHA512),
        (xades::ns::ECDSA_SHA512, xades::ns::SHA512),
    ] {
        assert_eq!(signature_digest_uri(method).unwrap(), digest);
    }
    match signature_digest_uri("urn:none") {
        Err(LibError::Unsupported(m)) => assert_eq!(m, "method not supported: urn:none"),
        _ => panic!("an unknown method has a digest"),
    }
}

#[test]
fn first_of_several_certificates_counts() {
    assert_eq!(first_certificate(Ok(vec![Ok(vec![1]), Ok(vec![2])])).unwrap(), vec![1]);
    let message = |r: Result<Vec<u8>, LibError>| match r {
        Err(LibError::Certificate(m)) => m,
        _ => panic!("no certificate error"),
    };
    assert_eq!(message(first_certificate(Ok(vec![]))), "no certificate in PEM input");
    assert_eq!(
        message(first_certificate(Ok(vec![Err("x".to_string())]))),
        "certificate re-encode: x"
    );
    assert_eq!(
        message(first_certificate(Err("x".to_string()))),
        "certificate PEM: x"
    );
}

#[test]
fn signing_failures_are_crypto_errors() {
    assert_eq!(signature_result(Ok(vec![1])).unwrap(), vec![1]);
    assert!(matches!(signature_result(Err("x".to_string())), Err(LibError::Crypto(m)) if m == "x"));
}

fn options(slot: Option<SlotSelector>, key_id: Option<Vec<u8>>, cert: Option<Vec<u8>>) -> Pkcs11Options {
    Pkcs11Options {
        module: "/lib/module.so".into(),
        slot,
        pin: "1234".to_string(),
        key_label: "sign".to_string(),
        key_id,
        certificate_der: cert,
    }
}

#[test]
fn options_locate_the_key() {
    let KeyLocator { slot, key } = options(None, None, None).locator();
    assert!(matches!(slot, SlotSelect::SoleToken));
    assert!(matches!(key, KeySelect::Label(l) if l == "sign"));
    let KeyLocator { slot, key } =
        options(Some(SlotSelector::Id(7)), Some(vec![1, 2]), None).locator();
    assert!(matches!(slot, SlotSelect::Id(7)));
    assert!(matches!(key, KeySelect::LabelAndId(l, id) if l == "sign" && id == vec![1, 2]));
    let label = Some(SlotSelector::TokenLabel("token".to_string()));
    let KeyLocator { slot, .. } = options(label, None, None).locator();
    assert!(matches!(slot, SlotSelect::TokenLabel(l) if l == "token"));
}

#[test]
fn token_signer_prefers_the_given_certificate() {
    let (_, p256) = key_and_cert(&rcgen::PKCS_ECDSA_P256_SHA256);
    let (_, p384) = key_and_cert(&rcgen::PKCS_ECDSA_P384_SHA384);
    let given = options(None, None, Some(p384.clone()));
    let signer = Pkcs11Signer::open(&given, Ok(Some(p256.clone()))).unwrap();
    assert_eq!(signer.certificate_der(), p384);
    assert_eq!(signer.algorithm_uri(), xades::ns::ECDSA_SHA384);
    assert!(signer.scheme() == SignScheme::EcdsaSha384);
    let from_token = Pkcs11Signer::open(&options(None, None, None), Ok(Some(p256.clone()))).unwrap();
    assert_eq!(from_token.certificate_der(), p256);
    assert_eq!(from_token.algorithm_uri(), xades::ns::ECDSA_SHA256);
    let wrapped = Pkcs11Signer::from_token_key(Some(p256), Some(p384.clone())).unwrap();
    assert_eq!(wrapped.certificate_der(), p384);
}

#[test]
fn token_signer_needs_a_certificate() {
    match Pkcs11Signer::open(&options(None, None, None), Ok(None)) {
        Err(LibError::Certificate(m)) => {
            assert_eq!(m, "no certificate available for key with label \"sign\"")
        }
        _ => panic!("opened without a certificate"),
    }
    match Pkcs11Signer::from_token_key(None, None) {
        Err(LibError::Certificate(m)) => assert_eq!(m, "no certificate available for the given key"),
        _ => panic!("wrapped without a certificate"),
    }
}

#[test]
fn token_failures_are_told_apart() {
    match Pkcs11Signer::open(&options(None, None, None), Err("no token".to_string())) {
        Err(LibError::Crypto(m)) => assert_eq!(m, "PKCS#11: no token"),
        _ => panic!("opened without a token"),
    }
    let (_, der) = key_and_cert(&rcgen::PKCS_ECDSA_P256_SHA256);
    let signer = Pkcs11Signer::from_token_key(Some(der), None).unwrap();
    assert_eq!(signer.signature(Ok(vec![1])).unwrap(), vec![1]);
    match signer.signature(Err("locked".to_string())) {
        Err(LibError::Signing(m)) => assert_eq!(m, "PKCS#11: locked"),
        _ => panic!("a failure passed for a signature"),
    }
}

#[test]
fn schemes_follow_the_curve() {
    for (curve, scheme, uri) in [
        (EcCurve::P256, SignScheme::EcdsaSha256, xades::ns::ECDSA_SHA256),
        (EcCurve::P384, SignScheme::EcdsaSha384, xades::ns::ECDSA_SHA384),
        (EcCurve::P521, SignScheme::EcdsaSha512, xades::ns::ECDSA_SHA512),
    ] {
        let (found, method) = scheme_for_key(Ok(curve)).unwrap();
        assert!(found == scheme);
        assert_eq!(method, uri);
    }
    assert!(matches!(scheme_for_certificate(b"none"), Err(LibError::Certificate(_))));
    let (_, ed25519) = key_and_cert(&rcgen::PKCS_ED25519);
    assert!(matches!(scheme_for_certificate(&ed25519), Err(LibError::Unsupported(_))));
}

#[test]
fn key_errors_are_told_apart() {
    let m = || "m".to_string();
    assert!(matches!(certificate_err(KeyError::Certificate(m())), LibError::Certificate(x) if x == "m"));
    assert!(matches!(certificate_err(KeyError::Unsupported(m())), LibError::Unsupported(x) if x == "m"));
    assert!(matches!(certificate_err(KeyError::Other(m())), LibError::Certificate(x) if x == "m"));
}

/// The numbers of an RSA key of 512 bits.
const SHORT_RSA: [&str; 8] = [
    "d13bcdbeb13fa73a03e8cb05a8cff7410e5abd19e29f025c287db4d24cd2001529bf3c32bdc60b126caaea6b2a741483adc02c6a1b46235218799a9daee3c19b",
    "010001",
    "8f46415bfc29d74c1dd331fabd1f3373a3edb4a1de11fe5eb7076563c060e8d656ee8e71687f89cae67418aa1abb991109a42dbed988ee55f668a3cb6916d5f1",
    "fc33c4391a7836135ccee943d1914c9bd83f0098b47ccb8e72ba9f35b3c78ad3",
    "d46264ed9722fd5d4c6f6fa77066c440489d3366294f8065db1744e705362119",
    "b05a7674c3b8997f929f30e7f66c16d8c72ecef8f90466c6961d3f652af07677",
    "082f9ab045a90596f9013a8e7b989a6bd7e0a74082cb1ba9d15dfe3be1498ad1",
    "a53dfc5ba4c2f3153a6dab25c6fba33fe84fcb711e33f4e05184d2b4a13de03f",
];

fn short_rsa_pem() -> String {
    rsa_pem(&SHORT_RSA)
}

fn rsa_pem(hexes: &[&str]) -> String {
    let mut numbers = vec![0x02, 0x01, 0x00];
    for hex in hexes {
        let bytes: Vec<u8> = (0..hex.len())
            .step_by(2)
            .map(|i| u8::from_str_radix(&hex[i..i + 2], 16).unwrap())
            .collect();
        let zero: &[u8] = if bytes[0] >= 0x80 { &[0] } else { &[] };
        numbers.extend(tlv(0x02, &[zero, &bytes]));
    }
    let oid = [0x2a, 0x86, 0x48, 0x86, 0xf7, 0x0d, 0x01, 0x01, 0x01];
    let der = tlv(0x30, &[
        &[0x02, 0x01, 0x00],
        &tlv(0x30, &[&tlv(0x06, &[&oid]), &[0x05, 0x00]]),
        &tlv(0x04, &[&tlv(0x30, &[&numbers])]),
    ]);
    pem(&der).replace("CERTIFICATE", "PRIVATE KEY")
}

#[test]
fn rsa_keys_need_room_for_the_method() {
    let text = short_rsa_pem();
    let signer = || SoftwareSigner::from_pem(text.as_bytes(), &[1], None).unwrap();
    assert_eq!(signer().algorithm_uri(), xades::ns::RSA_SHA256);
    let signature = signer().sign(b"data").unwrap();
    assert_eq!(signature.len(), 64);
    assert_eq!(signer().sign(b"data").unwrap(), signature);
    let key = bergshamra_keys::loader::load_pem_auto(text.as_bytes(), None).unwrap();
    let key = key.to_signing_key().unwrap();
    let method = bergshamra_crypto::sign::from_uri(xades::ns::RSA_SHA256).unwrap();
    assert!(method.verify(&key, b"data", &signature).unwrap());
    assert!(!method.verify(&key, b"date", &signature).unwrap());
    for uri in [xades::ns::RSA_SHA384, xades::ns::RSA_SHA512] {
        match signer().with_algorithm(uri).sign(b"data") {
            Err(LibError::Crypto(m)) => assert_eq!(m, "message too long"),
            _ => panic!("a short key signed"),
        }
    }
    assert!(matches!(
        signer().with_algorithm(xades::ns::PSS_SHA256).sign(b"data"),
        Err(LibError::Crypto(_))
    ));
}

#[test]
fn pss_signatures_verify_and_differ() {
    let text = short_rsa_pem();
    let signer = SoftwareSigner::from_pem(text.as_bytes(), &[1], None)
        .unwrap()
        .with_algorithm(xades::ns::PSS_SHA1);
    let first = signer.sign(b"data").unwrap();
    let second = signer.sign(b"data").unwrap();
    assert_ne!(first, second);
    let key = bergshamra_keys::loader::load_pem_auto(text.as_bytes(), None).unwrap();
    let key = key.to_signing_key().unwrap();
    let method = bergshamra_crypto::sign::from_uri(xades::ns::PSS_SHA1).unwrap();
    assert!(method.verify(&key, b"data", &first).unwrap());
    assert!(method.verify(&key, b"data", &second).unwrap());
    assert!(!method.verify(&key, b"date", &first).unwrap());
}

#[test]
fn rsa_methods_have_padding_and_digest() {
    assert!(find_rsa_method(xades::ns::RSA_SHA1) == Some((Padding::Pkcs1, RsaHash::Sha1)));
    assert!(find_rsa_method(xades::ns::RSA_SHA512) == Some((Padding::Pkcs1, RsaHash::Sha512)));
    assert!(find_rsa_method(xades::ns::PSS_SHA256) == Some((Padding::Pss, RsaHash::Sha256)));
    assert!(find_rsa_method(xades::ns::PSS_SHA3_384) == Some((Padding::Pss, RsaHash::Sha3_384)));
    assert!(find_rsa_method(xades::ns::ECDSA_SHA256).is_none());
    assert!(find_rsa_method("").is_none());
}

#[test]
fn rsa_keys_cannot_sign_by_ecdsa() {
    let signer = SoftwareSigner::from_pem(short_rsa_pem().as_bytes(), &[1], None)
        .unwrap()
        .with_algorithm(xades::ns::ECDSA_SHA256);
    assert!(matches!(signer.sign(b"data"), Err(LibError::Crypto(_))));
    let (key, der) = key_and_cert(&rcgen::PKCS_ECDSA_P256_SHA256);
    let signer = SoftwareSigner::from_pem(key.serialize_pem().as_bytes(), &der, None)
        .unwrap()
        .with_algorithm(xades::ns::RSA_SHA256);
    assert!(matches!(signer.sign(b"data"), Err(LibError::Crypto(_))));
}

/// Modulus, private exponent and second factor of keys with the first factor of the short key: one
/// whose factors are equal, and one whose second factor is not prime.
const ODD_RSA: [[&str; 3]; 2] = [
    [
        "f875f4c83144b3a08980b3d94b5c7dcbd0c189f4836292be6ea09ea827969418dfcee58f498d019994c9bfb355b277a7149827a0ad1b5a4373ee3d0a315229e9",
        "b05a7674c3b8997f929f30e7f66c16d8c72ecef8f90466c6961d3f652af07677",
        "fc33c4391a7836135ccee943d1914c9bd83f0098b47ccb8e72ba9f35b3c78ad3",
    ],
    [
        "d13bcdbeb13fa73a03e8cb05a8cff7410e5abd19e29f025c287db4d24cd200172226c4a4f2b677392648bcf2cd96adbb5e3e2d9b843fba6efdeed9091672d741",
        "36f656381af88515a4d4408c968936c2a4a22a5d83ddd03164438d3dd7072d156c8d27837557d3a8f54bc6f60273a272b3fdaa23bfc7bfc443c1ff869d903b57",
        "d46264ed9722fd5d4c6f6fa77066c440489d3366294f8065db1744e70536211b",
    ],
];

#[test]
fn rsa_keys_with_wrong_factors_do_not_sign() {
    for [modulus, exponent, factor] in ODD_RSA {
        let text = rsa_pem(&[modulus, "010001", exponent, SHORT_RSA[3], factor, "01", "01", "01"]);
        for uri in [xades::ns::RSA_SHA256, xades::ns::PSS_SHA1] {
            let signer = SoftwareSigner::from_pem(text.as_bytes(), &[1], None).unwrap();
            match signer.with_algorithm(uri).sign(b"data") {
                Err(LibError::Crypto(m)) => assert_eq!(m, "internal error"),
                _ => panic!("a key with wrong factors signed"),
            }
        }
    }
}

/// A key that is a sequence with an octet string, which announces five bytes and holds none.
const CUT_SHORT: [u8; 4] = [0x30, 0x02, 0x04, 0x05];

fn pkcs8(key: &[u8]) -> Vec<u8> {
    let oid = [0x2a, 0x86, 0x48, 0xce, 0x3d, 0x02, 0x01];
    tlv(0x30, &[
        &[0x02, 0x01, 0x00],
        &tlv(0x30, &[&tlv(0x06, &[&oid])]),
        &tlv(0x04, &[key]),
    ])
}

#[test]
fn keys_hold_what_they_announce() {
    assert!(!check_document(&pkcs8(&CUT_SHORT)));
    assert!(check_document(&pkcs8(&[0x30, 0x02, 0x04, 0x00])));
    assert!(check_document(&pkcs8(&[0x30, 0x07, 0x04, 0x05, 1, 2, 3, 4, 5])));
    assert!(!check_document(&pkcs8(&[0x30, 0x06, 0x04, 0x05, 1, 2, 3, 4])));
    assert!(!check_document(&pkcs8(&[0x30, 0x03, 0x04, 0x81, 0x80])));
    assert!(!check_document(&pkcs8(&[0x30, 0x06, 0x04, 0x84, 0xff, 0xff, 0xff, 0xff])));
    assert!(check_document(&pkcs8(&[])));
    assert!(check_document(&[]));
    assert!(check_document(b"no document"));
    let (key, _) = key_and_cert(&rcgen::PKCS_ECDSA_P256_SHA256);
    assert!(check_document(&key.serialize_der()));
}

#[test]
fn keys_that_are_cut_short_are_refused() {
    let der = pkcs8(&CUT_SHORT);
    let text = pem(&der).replace("CERTIFICATE", "PRIVATE KEY");
    for password in [None, Some("secret")] {
        match SoftwareSigner::from_pem(text.as_bytes(), &[1], password) {
            Err(LibError::Crypto(m)) => {
                assert_eq!(m, "private key: unable to auto-detect key format from PEM data")
            }
            _ => panic!("half a key was accepted"),
        }
    }
    match SoftwareSigner::from_pkcs12(&bundle_of(&der, &[&[1]]), "") {
        Err(LibError::Crypto(m)) => {
            assert_eq!(m, "PKCS#12: unable to parse PKCS#8 DER private key")
        }
        _ => panic!("half a key was accepted"),
    }
}

#[test]
fn scrypt_needs_memory_that_can_be_addressed() {
    assert!(check_scrypt(16384, 8, 1));
    assert!(check_scrypt(1, 0, 0));
    assert!(!check_scrypt(0, 8, 1));
    assert!(!check_scrypt(u64::MAX, 8, 1));
    assert!(check_scrypt(1 << 55, 1, 1));
    assert!(!check_scrypt(1 << 56, 1, 1));
}
