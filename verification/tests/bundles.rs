use der::Encode;
use pkcs8::pkcs5::pbes2::Parameters;
use pkcs8::pkcs5::EncryptionScheme;
use rcgen::{CertificateParams, KeyPair};
use xades::codec::frame_der;
use xades::crypto::container::{check_nested, check_plain_bundle};
use xades::{LibError, Signer, SoftwareSigner};

fn key_and_cert() -> (KeyPair, Vec<u8>) {
    let key = KeyPair::generate().unwrap();
    let cert = CertificateParams::new(vec!["a.test".to_string()])
        .unwrap()
        .self_signed(&key)
        .unwrap();
    let der = cert.der().to_vec();
    (key, der)
}

fn tlv(tag: u8, parts: &[&[u8]]) -> Vec<u8> {
    frame_der(tag, &parts.concat()).unwrap()
}

/// An element that goes on up to an end marker.
fn open(tag: u8, parts: &[&[u8]]) -> Vec<u8> {
    [&[tag, 0x80], parts.concat().as_slice(), &[0, 0]].concat()
}

fn bag(kind: u8, content: &[u8]) -> Vec<u8> {
    let oid = [0x2a, 0x86, 0x48, 0x86, 0xf7, 0x0d, 0x01, 0x0c, 0x0a, 0x01, kind];
    tlv(0x30, &[&tlv(0x06, &[&oid]), &tlv(0xa0, &[content])])
}

fn cert_bag(der: &[u8]) -> Vec<u8> {
    let oid = [0x2a, 0x86, 0x48, 0x86, 0xf7, 0x0d, 0x01, 0x09, 0x16, 0x01];
    let held = tlv(0xa0, &[&tlv(0x04, &[der])]);
    bag(3, &tlv(0x30, &[&tlv(0x06, &[&oid]), &held]))
}

const DATA: &[u8] = &[0x06, 0x09, 0x2a, 0x86, 0x48, 0x86, 0xf7, 0x0d, 0x01, 0x07, 0x01];
const ENCRYPTED_DATA: &[u8] = &[0x06, 0x09, 0x2a, 0x86, 0x48, 0x86, 0xf7, 0x0d, 0x01, 0x07, 0x06];
const VERSION: &[u8] = &[0x02, 0x01, 0x03];

fn data_info(content: &[u8]) -> Vec<u8> {
    tlv(0x30, &[DATA, &tlv(0xa0, &[&tlv(0x04, &[content])])])
}

fn locked_info(password: &str, content: &[u8]) -> Vec<u8> {
    let parameters = Parameters::pbkdf2_sha256_aes256cbc(10, &[7; 8], &[9; 16]).unwrap();
    let scheme = EncryptionScheme::from(parameters);
    let bytes = scheme.encrypt(password, content).unwrap();
    let inner = tlv(0x30, &[DATA, &scheme.to_der().unwrap(), &tlv(0x80, &[&bytes])]);
    tlv(0x30, &[ENCRYPTED_DATA, &tlv(0xa0, &[&tlv(0x30, &[&[0x02, 0x01, 0x00], &inner])])])
}

fn bundle(infos: &[&[u8]]) -> Vec<u8> {
    tlv(0x30, &[VERSION, &data_info(&tlv(0x30, infos))])
}

/// A value of a type that no bag has, whose length is all but the greatest number.
fn vast_bag() -> Vec<u8> {
    let value = [0x04, 0x88, 0xff, 0xff, 0xff, 0xff, 0xff, 0xff, 0xff, 0xfe];
    bag(9, &value)
}

fn refused(data: &[u8], password: &str) -> String {
    match SoftwareSigner::from_pkcs12(data, password) {
        Err(LibError::Crypto(m)) => m,
        Err(_) => panic!("the bundle was refused for another reason"),
        Ok(_) => panic!("the bundle was accepted"),
    }
}

#[test]
fn encrypted_bundles_open_with_the_password() {
    let (key, der) = key_and_cert();
    let certs = tlv(0x30, &[&cert_bag(&der)]);
    let keys = tlv(0x30, &[&bag(1, &key.serialize_der()), &bag(9, &[0x05, 0x00])]);
    let data = bundle(&[&locked_info("secret", &certs), &locked_info("secret", &keys)]);
    let signer = SoftwareSigner::from_pkcs12(&data, "secret").unwrap();
    assert_eq!(signer.certificate_der(), der);
    assert!(signer.sign(b"data").is_ok());
    assert!(refused(&data, "wrong").starts_with("PKCS#12: "));

    let mixed = bundle(&[&data_info(&certs), &locked_info("secret", &keys)]);
    assert!(SoftwareSigner::from_pkcs12(&mixed, "secret").is_ok());
}

#[test]
fn bundles_may_be_written_in_pieces() {
    let (key, der) = key_and_cert();
    let bags = open(0x30, &[&bag(1, &key.serialize_der()), &cert_bag(&der)]);
    let (front, back) = bags.split_at(bags.len() / 2);
    let pieces = open(0x24, &[&tlv(0x04, &[front]), &tlv(0x24, &[&tlv(0x04, &[back])])]);
    let info = open(0x30, &[DATA, &open(0xa0, &[&pieces])]);
    let held = open(0x30, &[&info]);
    let data = open(0x30, &[VERSION, &open(0x30, &[DATA, &open(0xa0, &[&tlv(0x04, &[&held])])])]);
    assert!(check_plain_bundle(&data));
    let signer = SoftwareSigner::from_pkcs12(&data, "").unwrap();
    assert_eq!(signer.certificate_der(), der);
}

#[test]
fn vast_lengths_are_refused() {
    let bags = tlv(0x30, &[&vast_bag()]);
    let why = "PKCS#12: failed to parse PKCS#12 contents";
    let plain = bundle(&[&data_info(&bags)]);
    assert!(!check_plain_bundle(&plain));
    assert_eq!(refused(&plain, ""), why);
    assert_eq!(refused(&bundle(&[&locked_info("secret", &bags)]), "secret"), why);
    assert!(refused(&bundle(&[&locked_info("secret", &bags)]), "wrong").starts_with("PKCS#12: "));

    let (front, back) = bags.split_at(bags.len() - 6);
    let pieces = tlv(0x24, &[&tlv(0x04, &[front]), &tlv(0x04, &[back])]);
    let info = tlv(0x30, &[DATA, &tlv(0xa0, &[&pieces])]);
    assert_eq!(refused(&bundle(&[&info]), ""), why);
    assert_eq!(refused(&bundle(&[&tlv(0x30, &[&[0x04, 0x88], &[0xff; 8]])]), ""), why);
}

#[test]
fn locked_parts_are_not_plain() {
    let bags = tlv(0x30, &[&bag(9, &[0x05, 0x00])]);
    assert!(check_plain_bundle(&bundle(&[&data_info(&bags)])));
    assert!(!check_plain_bundle(&bundle(&[&locked_info("secret", &bags)])));
    assert!(check_plain_bundle(b"no bundle"));
    assert!(check_plain_bundle(&[]));
}

#[test]
fn elements_lie_inside_one_another() {
    assert!(check_nested(&[]));
    assert!(check_nested(&[0x05, 0x00, 0x30, 0x02, 0x05, 0x00]));
    assert!(check_nested(&[0x30, 0x80, 0x05, 0x00, 0x00, 0x00]));
    assert!(check_nested(&[0x30, 0x80, 0x30, 0x80, 0x00, 0x00, 0x00, 0x00]));
    assert!(check_nested(&[0x1f, 0x81, 0x01, 0x01, 0xff]));
    assert!(check_nested(&[0x04, 0x81, 0x02, 0xff, 0xff]));
    assert!(check_nested(&[0x04, 0x89, 0, 0, 0, 0, 0, 0, 0, 0, 1, 0xff]));
    // A length without content, content without a length, and no end marker.
    assert!(!check_nested(&[0x05]));
    assert!(!check_nested(&[0x05, 0x01]));
    assert!(!check_nested(&[0x30, 0x02, 0x05, 0x01]));
    assert!(!check_nested(&[0x30, 0x80, 0x05, 0x00]));
    assert!(!check_nested(&[0x30, 0x80, 0x05, 0x00, 0x00, 0x01]));
    assert!(!check_nested(&[0x04, 0x80, 0x00, 0x00]));
    assert!(!check_nested(&[0x04, 0xff]));
    assert!(!check_nested(&[0x1f, 0x81]));
    assert!(!check_nested(&[0x04, 0x82, 0x01]));
    assert!(!check_nested(&[0x04, 0x88, 0xff, 0xff, 0xff, 0xff, 0xff, 0xff, 0xff, 0xff]));
    // Octet strings may hold anything.
    assert!(check_nested(&[0x04, 0x02, 0x05, 0x01]));
}
