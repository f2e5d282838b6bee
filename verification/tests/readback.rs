use xades::ns;
use xades::sig::template::{write_document, Draft, FileRef, UnsignedData};
use xades::validate::xades::{check_signed_properties, XadesOutcome};
use xades::xml::input::parse;
use xades::Profile;

const CERT: &[u8] = b"a certificate";

fn draft() -> Draft {
    Draft {
        id: "S\"<0>\t&\r".to_string(),
        c14n_uri: "urn:c14n".to_string(),
        sig_method_uri: "urn:sig".to_string(),
        digest_uri: ns::SHA256.to_string(),
        files: vec![
            FileRef {
                uri: "a b\n.txt".to_string(),
                mime_type: "  ".to_string(),
                digest: vec![1],
            },
            FileRef {
                uri: "\u{1}'&\"c\"".to_string(),
                mime_type: "x/<y>]]>\r\n".to_string(),
                digest: vec![],
            },
        ],
        cert_der: CERT.to_vec(),
        signing_time: "2026-01-02T03:04:05Z".to_string(),
        signed_props_digest: None,
        signature_value: Some(vec![7]),
        unsigned: None,
    }
}

fn unsigned(ocsp_values: Vec<Vec<u8>>) -> UnsignedData {
    UnsignedData {
        timestamp_der: vec![8],
        timestamp_c14n_uri: "urn:ts".to_string(),
        cert_values: vec![vec![9]],
        ocsp_values,
    }
}

fn document(d: &Draft) -> String {
    let digest = bergshamra_crypto::digest::digest(&d.digest_uri, &d.cert_der).unwrap();
    write_document(d, &digest, &[5]).unwrap()
}

fn read_back(d: &Draft) -> XadesOutcome {
    let doc = parse(&document(d)).unwrap();
    let signatures = doc.descendants(0, ns::DSIG, "Signature");
    assert_eq!(signatures, vec![2]);
    let properties = doc.descendants(2, ns::XADES, "SignedProperties");
    assert_eq!(properties.len(), 1);
    check_signed_properties(&doc, 2, properties[0], CERT)
}

#[test]
fn built_documents_read_back() {
    let mut d = draft();
    let read = read_back(&d);
    assert!(read.errors.is_empty());
    assert!(read.warnings.is_empty());
    assert_eq!(read.claimed_signing_time.as_deref(), Some("2026-01-02T03:04:05Z"));
    assert_eq!(read.profile, Profile::B);
    d.files.clear();
    let read = read_back(&d);
    assert!(read.errors.is_empty());
    assert!(read.warnings.is_empty());
}

#[test]
fn unsigned_properties_read_back_as_the_profile() {
    let mut d = draft();
    d.unsigned = Some(unsigned(vec![]));
    assert_eq!(read_back(&d).profile, Profile::T);
    d.unsigned = Some(unsigned(vec![vec![11]]));
    assert_eq!(read_back(&d).profile, Profile::LT);
    assert!(read_back(&d).errors.is_empty());
}

#[test]
fn certificate_of_another_signer_is_not_bound() {
    let mut d = draft();
    d.cert_der = b"another certificate".to_vec();
    assert_eq!(
        read_back(&d).errors,
        vec!["SigningCertificate digest does not match the KeyInfo certificate"]
    );
}

#[test]
fn written_characters_are_kept_or_replaced() {
    let mut d = draft();
    d.signing_time = "\u{0}a\tb\r\n\u{FFFE}<&>]]>\u{1F600} ".to_string();
    let read = read_back(&d);
    assert_eq!(
        read.claimed_signing_time.as_deref(),
        Some("\u{FFFD}a\tb\r\n\u{FFFD}<&>]]>\u{1F600} ")
    );
    assert!(read.warnings.is_empty());
    let doc = parse(&document(&d)).unwrap();
    assert_eq!(doc.attribute(2, "Id"), Some("S\"<0>\t&\r"));
    let references = doc.descendants(2, ns::DSIG, "Reference");
    assert_eq!(doc.attribute(references[0], "URI"), Some("a b\n.txt"));
    assert_eq!(doc.attribute(references[1], "URI"), Some("\u{FFFD}'&\"c\""));
    let kinds = doc.descendants(2, ns::XADES, "MimeType");
    assert_eq!(doc.text(kinds[0]), "  ");
    assert_eq!(doc.text(kinds[1]), "x/<y>]]>\r\n");
    let value = doc.descendants(2, ns::DSIG, "DigestValue");
    assert_eq!(doc.text(value[1]), "");
    assert_eq!(doc.nodes[0].depth, 0);
    assert_eq!(doc.nodes[1].depth, 1);
    assert_eq!(doc.nodes[2].depth, 2);
    assert!(doc.nodes[1].attributes.is_empty());
}
