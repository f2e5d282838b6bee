use xades::codec::{decode_b64, encode_b64, encode_reference_uri, frame_der, MAX_DER_LENGTH};
use xades::x509::{encode_issuer_serial, issuer_serial_v2};
use xades::LibError;

#[test]
fn reference_uris_keep_unreserved_characters() {
    assert_eq!(encode_reference_uri("test file.txt"), "test%20file.txt");
    assert_eq!(encode_reference_uri("a/B-0._~"), "a/B-0._~");
    assert_eq!(encode_reference_uri("100%"), "100%25");
    assert_eq!(encode_reference_uri("õ&#\u{1F600}"), "%C3%B5%26%23%F0%9F%98%80");
    assert_eq!(encode_reference_uri(""), "");
}

#[test]
fn different_names_have_different_uris() {
    assert_ne!(encode_reference_uri("a b"), encode_reference_uri("a%20b"));
    assert_eq!(encode_reference_uri("a%20b"), "a%2520b");
}

#[test]
fn base64_is_standard_and_padded() {
    assert_eq!(encode_b64(b"f"), "Zg==");
    assert_eq!(encode_b64(&[0xfb, 0xff]), "+/8=");
    assert_eq!(encode_b64(b""), "");
}

#[test]
fn base64_may_hold_spaces_and_line_breaks() {
    assert_eq!(decode_b64("Zm 9v\r\nYm\nFy"), Some(b"foobar".to_vec()));
    assert_eq!(decode_b64("Zg"), None);
    assert_eq!(decode_b64("Zg=\t="), None);
    assert_eq!(decode_b64("not base64!"), None);
    assert_eq!(decode_b64(" \n"), Some(vec![]));
}

#[test]
fn base64_reads_back_what_was_written() {
    let data: Vec<u8> = (0..=255).collect();
    assert_eq!(decode_b64(&encode_b64(&data)), Some(data));
}

#[test]
fn der_lengths_are_as_short_as_possible() {
    assert_eq!(frame_der(0x04, &[]), Some(vec![0x04, 0x00]));
    assert_eq!(frame_der(0x30, &[1, 2]), Some(vec![0x30, 0x02, 1, 2]));
    let head = |n: usize| frame_der(0x30, &vec![0u8; n]).unwrap()[..6].to_vec();
    assert_eq!(head(0x7f)[..2], [0x30, 0x7f]);
    assert_eq!(head(0x80)[..3], [0x30, 0x81, 0x80]);
    assert_eq!(head(0xff)[..3], [0x30, 0x81, 0xff]);
    assert_eq!(head(0x100)[..4], [0x30, 0x82, 0x01, 0x00]);
    assert_eq!(head(0x1_0203)[..5], [0x30, 0x83, 0x01, 0x02, 0x03]);
    assert_eq!(head(0x102_0304), [0x30, 0x84, 0x01, 0x02, 0x03, 0x04]);
}

#[test]
fn der_values_have_a_largest_length() {
    let largest = vec![0u8; MAX_DER_LENGTH - 6];
    assert_eq!(frame_der(0x04, &largest).unwrap().len(), MAX_DER_LENGTH);
    let longer = vec![0u8; MAX_DER_LENGTH - 5];
    assert_eq!(frame_der(0x04, &longer), None);
    match encode_issuer_serial(&longer, &[]) {
        Err(LibError::Certificate(m)) => assert_eq!(m, "IssuerSerial encoding: integer overflow"),
        _ => panic!("an overlong value was encoded"),
    }
}

#[test]
fn issuer_and_serial_are_framed() {
    assert_eq!(
        encode_issuer_serial(&[0x30, 0x00], &[0x02, 0x01, 0x05]).unwrap(),
        vec![0x30, 0x09, 0x30, 0x04, 0xa4, 0x02, 0x30, 0x00, 0x02, 0x01, 0x05]
    );
}

#[test]
fn issuer_serial_needs_a_certificate() {
    match issuer_serial_v2(&[1, 2, 3]) {
        Err(LibError::Certificate(m)) => assert!(m.starts_with("signing certificate: "), "{m}"),
        _ => panic!("bytes passed for a certificate"),
    }
}

#[test]
fn issuer_serial_of_a_certificate_names_its_issuer() {
    let rcgen::CertifiedKey { cert, .. } =
        rcgen::generate_simple_self_signed(vec!["a.test".to_string()]).unwrap();
    let parsed = xades::x509::parse_certificate(cert.der()).unwrap();
    assert_eq!(parsed.der, cert.der().to_vec());
    assert_eq!(parsed.subject, parsed.issuer);
    assert_eq!(parsed.subject_text, "CN=rcgen self signed cert");
    assert_eq!(parsed.subject_text, parsed.issuer_text);
    assert_eq!(parsed.serial[0], 0x02);
    assert_eq!(
        issuer_serial_v2(cert.der()).unwrap(),
        encode_issuer_serial(&parsed.issuer, &parsed.serial).unwrap()
    );
}
