use xades::sig::template::{
    build_signature_xml, write_document, Draft, FileRef, UnsignedData,
};
use xades::xml::input::{
    parse, C14nMethod, C14N, C14N11, C14N11_WITH_COMMENTS, C14N_WITH_COMMENTS, EXC_C14N,
    EXC_C14N_WITH_COMMENTS,
};
use xades::{CreatedSignature, LibError};

fn draft() -> Draft {
    Draft {
        id: "S0".to_string(),
        c14n_uri: "urn:c14n".to_string(),
        sig_method_uri: "urn:sig".to_string(),
        digest_uri: "urn:digest".to_string(),
        files: vec![
            FileRef {
                uri: "a.txt".to_string(),
                mime_type: "text/plain".to_string(),
                digest: vec![1],
            },
            FileRef {
                uri: "b&\"c\"".to_string(),
                mime_type: "x/<y>".to_string(),
                digest: vec![2],
            },
        ],
        cert_der: vec![3],
        signing_time: "2026-01-02T03:04:05Z".to_string(),
        signed_props_digest: None,
        signature_value: None,
        unsigned: None,
    }
}

#[test]
fn document_is_written_exactly() {
    let xml = write_document(&draft(), &[4], &[5]).unwrap();
    let expected = [
        "<?xml version=\"1.0\" encoding=\"UTF-8\"?>",
        "<asic:XAdESSignatures xmlns:asic=\"http://uri.etsi.org/02918/v1.2.1#\"",
        " xmlns:ds=\"http://www.w3.org/2000/09/xmldsig#\"",
        " xmlns:xades=\"http://uri.etsi.org/01903/v1.3.2#\">",
        "<ds:Signature Id=\"S0\">",
        "<ds:SignedInfo>",
        "<ds:CanonicalizationMethod Algorithm=\"urn:c14n\"/>",
        "<ds:SignatureMethod Algorithm=\"urn:sig\"/>",
        "<ds:Reference Id=\"S0-RefId0\" URI=\"a.txt\">",
        "<ds:DigestMethod Algorithm=\"urn:digest\"/><ds:DigestValue>AQ==</ds:DigestValue>",
        "</ds:Reference>",
        "<ds:Reference Id=\"S0-RefId1\" URI=\"b&amp;&quot;c&quot;\">",
        "<ds:DigestMethod Algorithm=\"urn:digest\"/><ds:DigestValue>Ag==</ds:DigestValue>",
        "</ds:Reference>",
        "<ds:Reference Type=\"http://uri.etsi.org/01903#SignedProperties\"",
        " URI=\"#S0-SignedProperties\">",
        "<ds:DigestMethod Algorithm=\"urn:digest\"/><ds:DigestValue></ds:DigestValue>",
        "</ds:Reference>",
        "</ds:SignedInfo>",
        "<ds:SignatureValue Id=\"S0-SIG\"></ds:SignatureValue>",
        "<ds:KeyInfo><ds:X509Data><ds:X509Certificate>Aw==</ds:X509Certificate></ds:X509Data></ds:KeyInfo>",
        "<ds:Object><xades:QualifyingProperties Target=\"#S0\">",
        "<xades:SignedProperties Id=\"S0-SignedProperties\">",
        "<xades:SignedSignatureProperties>",
        "<xades:SigningTime>2026-01-02T03:04:05Z</xades:SigningTime>",
        "<xades:SigningCertificateV2><xades:Cert><xades:CertDigest>",
        "<ds:DigestMethod Algorithm=\"urn:digest\"/><ds:DigestValue>BA==</ds:DigestValue>",
        "</xades:CertDigest><xades:IssuerSerialV2>BQ==</xades:IssuerSerialV2>",
        "</xades:Cert></xades:SigningCertificateV2>",
        "</xades:SignedSignatureProperties>",
        "<xades:SignedDataObjectProperties>",
        "<xades:DataObjectFormat ObjectReference=\"#S0-RefId0\">",
        "<xades:MimeType>text/plain</xades:MimeType></xades:DataObjectFormat>",
        "<xades:DataObjectFormat ObjectReference=\"#S0-RefId1\">",
        "<xades:MimeType>x/&lt;y&gt;</xades:MimeType></xades:DataObjectFormat>",
        "</xades:SignedDataObjectProperties>",
        "</xades:SignedProperties>",
        "</xades:QualifyingProperties></ds:Object>",
        "</ds:Signature></asic:XAdESSignatures>",
    ]
    .concat();
    assert_eq!(xml, expected);
}

#[test]
fn values_and_unsigned_properties_are_written() {
    let mut d = draft();
    d.signed_props_digest = Some(vec![6]);
    d.signature_value = Some(vec![7]);
    d.unsigned = Some(UnsignedData {
        timestamp_der: vec![8],
        timestamp_c14n_uri: "urn:ts".to_string(),
        cert_values: vec![vec![9], vec![10]],
        ocsp_values: vec![vec![11]],
    });
    let xml = write_document(&d, &[4], &[5]).unwrap();
    assert!(xml.contains("<ds:DigestValue>Bg==</ds:DigestValue></ds:Reference></ds:SignedInfo>"));
    assert!(xml.contains("<ds:SignatureValue Id=\"S0-SIG\">Bw==</ds:SignatureValue>"));
    let unsigned = [
        "</xades:SignedProperties>",
        "<xades:UnsignedProperties><xades:UnsignedSignatureProperties>",
        "<xades:SignatureTimeStamp Id=\"S0-TS\">",
        "<ds:CanonicalizationMethod Algorithm=\"urn:ts\"/>",
        "<xades:EncapsulatedTimeStamp>CA==</xades:EncapsulatedTimeStamp>",
        "</xades:SignatureTimeStamp>",
        "<xades:CertificateValues>",
        "<xades:EncapsulatedX509Certificate>CQ==</xades:EncapsulatedX509Certificate>",
        "<xades:EncapsulatedX509Certificate>Cg==</xades:EncapsulatedX509Certificate>",
        "</xades:CertificateValues>",
        "<xades:RevocationValues><xades:OCSPValues>",
        "<xades:EncapsulatedOCSPValue>Cw==</xades:EncapsulatedOCSPValue>",
        "</xades:OCSPValues></xades:RevocationValues>",
        "</xades:UnsignedSignatureProperties></xades:UnsignedProperties>",
        "</xades:QualifyingProperties>",
    ]
    .concat();
    assert!(xml.contains(&unsigned), "{xml}");
}

#[test]
fn empty_value_lists_are_left_out() {
    let mut d = draft();
    d.unsigned = Some(UnsignedData {
        timestamp_der: vec![8],
        timestamp_c14n_uri: "urn:ts".to_string(),
        cert_values: vec![],
        ocsp_values: vec![],
    });
    let xml = write_document(&d, &[4], &[5]).unwrap();
    assert!(!xml.contains("CertificateValues"));
    assert!(!xml.contains("RevocationValues"));
    assert!(xml.contains("EncapsulatedTimeStamp"));
}

#[test]
fn signed_parts_do_not_depend_on_later_data() {
    let part = |xml: &str, name: &str| {
        let start = xml.find(&format!("<{name}")).unwrap();
        let end = xml.find(&format!("</{name}>")).unwrap();
        xml[start..end].to_string()
    };
    let plain = write_document(&draft(), &[4], &[5]).unwrap();
    let mut d = draft();
    d.signature_value = Some(vec![7]);
    d.unsigned = Some(UnsignedData {
        timestamp_der: vec![8],
        timestamp_c14n_uri: "urn:ts".to_string(),
        cert_values: vec![],
        ocsp_values: vec![],
    });
    let later = write_document(&d, &[4], &[5]).unwrap();
    for name in ["ds:SignedInfo", "xades:SignedProperties", "ds:KeyInfo"] {
        assert_eq!(part(&plain, name), part(&later, name));
    }
    d.signed_props_digest = Some(vec![6]);
    let with_digest = write_document(&d, &[4], &[5]).unwrap();
    assert_eq!(
        part(&plain, "xades:SignedProperties"),
        part(&with_digest, "xades:SignedProperties")
    );
    assert_ne!(part(&plain, "ds:SignedInfo"), part(&with_digest, "ds:SignedInfo"));
}

#[test]
fn ids_follow_the_signature_id() {
    let d = draft();
    assert_eq!(d.signed_properties_id(), "S0-SignedProperties");
    assert_eq!(d.reference_id(0), "S0-RefId0");
    assert_eq!(d.reference_id(9), "S0-RefId9");
    assert_eq!(d.reference_id(10), "S0-RefId10");
    assert_eq!(d.reference_id(usize::MAX), format!("S0-RefId{}", usize::MAX));
}

#[test]
fn unknown_characters_are_replaced() {
    let mut d = draft();
    d.id = "a\tb\u{1}".to_string();
    d.signing_time = "x\ty\r\u{FFFE}".to_string();
    let xml = write_document(&d, &[4], &[5]).unwrap();
    assert!(xml.contains("<ds:Signature Id=\"a&#x9;b\u{FFFD}\">"));
    assert!(xml.contains("<xades:SigningTime>x\ty&#xD;\u{FFFD}</xades:SigningTime>"));
}

#[test]
fn building_needs_a_digest_method_and_a_certificate() {
    let mut d = draft();
    match build_signature_xml(&d) {
        Err(LibError::Crypto(m)) => assert!(m.contains("urn:digest"), "{m}"),
        _ => panic!("an unknown digest method was accepted"),
    }
    d.digest_uri = xades::ns::SHA384.to_string();
    match build_signature_xml(&d) {
        Err(LibError::Certificate(m)) => assert!(m.starts_with("signing certificate: "), "{m}"),
        _ => panic!("bytes passed for a certificate"),
    }
}

#[test]
fn building_digests_the_certificate() {
    let rcgen::CertifiedKey { cert, .. } =
        rcgen::generate_simple_self_signed(vec!["a.test".to_string()]).unwrap();
    let mut d = draft();
    d.cert_der = cert.der().to_vec();
    d.digest_uri = xades::ns::SHA256.to_string();
    let digest = bergshamra_crypto::digest::digest(xades::ns::SHA256, cert.der()).unwrap();
    let issuer_serial = xades::x509::issuer_serial_v2(cert.der()).unwrap();
    let xml = build_signature_xml(&d).unwrap();
    assert_eq!(xml, write_document(&d, &digest, &issuer_serial).unwrap());
    assert_eq!(CreatedSignature::new(d).unwrap().into_xml(), xml);
}

#[test]
fn timestamp_needs_a_known_canonicalization() {
    let rcgen::CertifiedKey { cert, .. } =
        rcgen::generate_simple_self_signed(vec!["a.test".to_string()]).unwrap();
    let mut d = draft();
    d.cert_der = cert.der().to_vec();
    d.digest_uri = xades::ns::SHA256.to_string();
    match CreatedSignature::new(d).unwrap().timestamp_input() {
        Err(LibError::Unsupported(m)) => assert_eq!(m, "timestamp canonicalization: urn:c14n"),
        _ => panic!("an unknown method was accepted"),
    }
}

#[test]
fn timestamp_covers_the_signature_value() {
    let rcgen::CertifiedKey { cert, .. } =
        rcgen::generate_simple_self_signed(vec!["a.test".to_string()]).unwrap();
    let mut d = draft();
    d.cert_der = cert.der().to_vec();
    d.digest_uri = xades::ns::SHA256.to_string();
    d.signature_value = Some(vec![7]);
    d.c14n_uri = xades::xml::input::EXC_C14N.to_string();
    let created = CreatedSignature::new(d).unwrap();
    let covered = created.timestamp_input().unwrap();
    assert_eq!(
        String::from_utf8(covered.clone()).unwrap(),
        "<ds:SignatureValue xmlns:ds=\"http://www.w3.org/2000/09/xmldsig#\" Id=\"S0-SIG\">Bw==</ds:SignatureValue>"
    );
    let hash = bergshamra_crypto::digest::digest(xades::ns::SHA256, &covered).unwrap();
    assert_eq!(created.timestamp_hash().unwrap(), hash);
}

#[test]
fn timestamp_covers_the_same_once_the_signature_is_extended() {
    let rcgen::CertifiedKey { cert, .. } =
        rcgen::generate_simple_self_signed(vec!["a.test".to_string()]).unwrap();
    let ds = " xmlns:ds=\"http://www.w3.org/2000/09/xmldsig#\"";
    let all = format!(
        " xmlns:asic=\"{}\"{ds} xmlns:xades=\"{}\"",
        xades::ns::ASIC,
        xades::ns::XADES
    );
    for (method, declared) in [
        (C14N, all.as_str()),
        (C14N_WITH_COMMENTS, all.as_str()),
        (C14N11, all.as_str()),
        (C14N11_WITH_COMMENTS, all.as_str()),
        (EXC_C14N, ds),
        (EXC_C14N_WITH_COMMENTS, ds),
    ] {
        let mut d = draft();
        d.id = "a>b<c&d\"e\tf\ng\rh\u{1}i\u{e9}".to_string();
        d.cert_der = cert.der().to_vec();
        d.digest_uri = xades::ns::SHA256.to_string();
        d.signature_value = Some(vec![7]);
        d.c14n_uri = method.to_string();
        d.unsigned = None;
        let created = CreatedSignature::new(d).unwrap();
        let covered = created.timestamp_input().unwrap();
        assert_eq!(
            String::from_utf8(covered.clone()).unwrap(),
            format!(
                "<ds:SignatureValue{declared} Id=\"a>b&lt;c&amp;d&quot;e&#x9;f&#xA;g&#xD;h\u{fffd}i\u{e9}-SIG\">Bw==</ds:SignatureValue>"
            )
        );
        let extended = created
            .extend_to_lt_with(vec![1, 2, 3], vec![vec![4], vec![5]], vec![vec![6]])
            .unwrap();
        assert_eq!(extended.timestamp_input().unwrap(), covered);

        let xml = extended.into_xml();
        let doc = parse(&xml).unwrap();
        let value = doc.descendants(0, xades::ns::DSIG, "SignatureValue")[0];
        let form = doc.canonicalize(value, C14nMethod::from_uri(method).unwrap());
        assert_eq!(form.unwrap(), covered);
    }
}

#[test]
fn empty_elements_have_a_canonical_form() {
    let rcgen::CertifiedKey { cert, .. } =
        rcgen::generate_simple_self_signed(vec!["a.test".to_string()]).unwrap();
    let mut d = draft();
    d.cert_der = cert.der().to_vec();
    d.digest_uri = xades::ns::SHA256.to_string();
    d.signature_value = None;
    d.c14n_uri = EXC_C14N.to_string();
    let covered = CreatedSignature::new(d).unwrap().timestamp_input().unwrap();
    assert_eq!(
        String::from_utf8(covered).unwrap(),
        "<ds:SignatureValue xmlns:ds=\"http://www.w3.org/2000/09/xmldsig#\" Id=\"S0-SIG\"></ds:SignatureValue>"
    );
}
