use rcgen::{BasicConstraints, CertificateParams, CertifiedIssuer, DnType, IsCa, KeyPair};
use xades::sig::lt::{find_issuer, merge_candidates};
use xades::x509::parse_certificate;
use xades::LibError;

fn issuer_and_leaf() -> (Vec<u8>, Vec<u8>) {
    let mut params = CertificateParams::new(Vec::<String>::new()).unwrap();
    params.distinguished_name.push(DnType::CommonName, "Some CA");
    params.is_ca = IsCa::Ca(BasicConstraints::Unconstrained);
    let ca = CertifiedIssuer::self_signed(params, KeyPair::generate().unwrap()).unwrap();
    let key = KeyPair::generate().unwrap();
    let leaf = CertificateParams::new(vec!["a.test".to_string()])
        .unwrap()
        .signed_by(&key, &ca)
        .unwrap();
    (ca.der().to_vec(), leaf.der().to_vec())
}

#[test]
fn merging_adds_what_is_new() {
    let list = |items: &[u8]| items.iter().map(|b| vec![*b]).collect::<Vec<_>>();
    assert_eq!(merge_candidates(list(&[1, 2]), list(&[2, 3, 3, 1])), list(&[1, 2, 3]));
    assert_eq!(merge_candidates(list(&[1, 2, 3]), list(&[2, 3, 3, 1])), list(&[1, 2, 3]));
    assert_eq!(merge_candidates(list(&[1, 1]), list(&[])), list(&[1, 1]));
    assert_eq!(merge_candidates(list(&[]), list(&[4, 5])), list(&[4, 5]));
    assert_eq!(merge_candidates(list(&[1, 1]), list(&[2, 1, 2, 3])), list(&[1, 1, 2, 3]));
}

#[test]
fn issuer_is_found_by_name() {
    let (ca, leaf_der) = issuer_and_leaf();
    let leaf = parse_certificate(&leaf_der).unwrap();
    let candidates = vec![leaf_der.clone(), ca.clone(), vec![0]];
    assert_eq!(find_issuer(&leaf, &candidates).unwrap().der, ca);
}

#[test]
fn missing_issuer_is_named() {
    let (_, leaf_der) = issuer_and_leaf();
    let leaf = parse_certificate(&leaf_der).unwrap();
    for candidates in [vec![], vec![leaf_der.clone()]] {
        match find_issuer(&leaf, &candidates) {
            Err(LibError::Certificate(m)) => {
                assert!(m.starts_with("no issuer certificate provided for "), "{m}");
                assert!(m.contains("CN=Some CA"), "{m}");
            }
            _ => panic!("an issuer was found"),
        }
    }
}

#[test]
fn candidates_before_the_issuer_must_parse() {
    let (ca, leaf_der) = issuer_and_leaf();
    let leaf = parse_certificate(&leaf_der).unwrap();
    match find_issuer(&leaf, &vec![vec![0], ca]) {
        Err(LibError::Certificate(m)) => assert!(m.starts_with("issuer certificate: "), "{m}"),
        _ => panic!("bytes passed for a certificate"),
    }
}
