use xades::codec::encode_b64;
use xades::validate::xades::{check_certificate_digest, check_signed_properties, XadesOutcome};
use xades::xml::input::parse;
use xades::Profile;

const CERT: &[u8] = b"a certificate";

fn digest(method: &str) -> String {
    encode_b64(&bergshamra_crypto::digest::digest(method, CERT).unwrap())
}

fn cert_property(name: &str, method: &str, value: &str) -> String {
    format!(
        "<xades:{name}><xades:Cert><xades:CertDigest>\
         <ds:DigestMethod Algorithm=\"{method}\"/><ds:DigestValue>{value}</ds:DigestValue>\
         </xades:CertDigest></xades:Cert></xades:{name}>"
    )
}

fn good_cert() -> String {
    cert_property("SigningCertificate", xades::ns::SHA256, &digest(xades::ns::SHA256))
}

const TIME: &str = "<xades:SigningTime>2026-01-02T03:04:05Z</xades:SigningTime>";
const REFERENCES: &str = "<ds:Reference Id=\"r0\" URI=\"a.txt\"/>\
    <ds:Reference Type=\"http://uri.etsi.org/01903#SignedProperties\" URI=\"#sp\"/>";
const FORMATS: &str = "<xades:DataObjectFormat ObjectReference=\"#r0\"><xades:MimeType>text/plain\
    </xades:MimeType></xades:DataObjectFormat>";

fn document(target: &str, ssp: &str, references: &str, formats: &str, unsigned: &str) -> String {
    format!(
        "<ds:Signature xmlns:ds=\"{}\" xmlns:xades=\"{}\" Id=\"S\">\
         <ds:SignedInfo>{references}</ds:SignedInfo>\
         <ds:Object><xades:QualifyingProperties Target=\"{target}\">\
         <xades:SignedProperties Id=\"sp\">{ssp}\
         <xades:SignedDataObjectProperties>{formats}</xades:SignedDataObjectProperties>\
         </xades:SignedProperties>{unsigned}</xades:QualifyingProperties></ds:Object></ds:Signature>",
        xades::ns::DSIG,
        xades::ns::XADES
    )
}

fn signed_signature_properties(content: &str) -> String {
    format!("<xades:SignedSignatureProperties>{content}</xades:SignedSignatureProperties>")
}

fn check(xml: &str) -> XadesOutcome {
    let doc = parse(xml).unwrap();
    let sig = doc.descendants(0, xades::ns::DSIG, "Signature")[0];
    let sp = doc.descendants(0, xades::ns::XADES, "SignedProperties")[0];
    check_signed_properties(&doc, sig, sp, CERT)
}

fn check_with(time: &str, cert: &str) -> XadesOutcome {
    let ssp = signed_signature_properties(&format!("{time}{cert}"));
    check(&document("#S", &ssp, REFERENCES, FORMATS, ""))
}

#[test]
fn sound_properties_pass() {
    let out = check_with(TIME, &good_cert());
    assert_eq!(out.errors, Vec::<String>::new());
    assert_eq!(out.warnings, Vec::<String>::new());
    assert_eq!(out.claimed_signing_time.as_deref(), Some("2026-01-02T03:04:05Z"));
    assert_eq!(out.profile, Profile::B);
    assert_eq!(out.unsigned_node, None);
}

#[test]
fn target_must_name_the_signature() {
    let ssp = signed_signature_properties(&format!("{TIME}{}", good_cert()));
    for target in ["#T", "S", ""] {
        let out = check(&document(target, &ssp, REFERENCES, FORMATS, ""));
        assert_eq!(
            out.errors,
            vec![format!(
                "QualifyingProperties Target {target:?} does not match signature Id \"S\""
            )]
        );
    }
}

#[test]
fn properties_must_be_qualifying() {
    let xml = format!(
        "<ds:Signature xmlns:ds=\"{}\" xmlns:xades=\"{}\" Id=\"S\">\
         <xades:SignedProperties/></ds:Signature>",
        xades::ns::DSIG,
        xades::ns::XADES
    );
    let out = check(&xml);
    assert_eq!(
        out.errors,
        vec![
            "SignedProperties is not inside QualifyingProperties",
            "missing SignedSignatureProperties"
        ]
    );
    assert_eq!(out.claimed_signing_time, None);
}

#[test]
fn signing_time_must_be_a_time() {
    let out = check_with("", &good_cert());
    assert_eq!(out.errors, vec!["missing SigningTime"]);
    let out = check_with("<xades:SigningTime>yesterday</xades:SigningTime>", &good_cert());
    assert_eq!(out.errors, vec!["SigningTime is not a valid timestamp: yesterday"]);
    assert_eq!(out.claimed_signing_time.as_deref(), Some("yesterday"));
}

#[test]
fn certificate_must_be_bound() {
    assert_eq!(check_with(TIME, "").errors, vec!["missing SigningCertificate"]);
    for name in ["SigningCertificate", "SigningCertificateV2"] {
        for method in [xades::ns::SHA256, xades::ns::SHA384, xades::ns::SHA512] {
            let out = check_with(TIME, &cert_property(name, method, &digest(method)));
            assert_eq!(out.errors, Vec::<String>::new());
        }
        let out = check_with(TIME, &cert_property(name, xades::ns::SHA256, &digest(xades::ns::SHA512)));
        assert_eq!(
            out.errors,
            vec!["SigningCertificate digest does not match the KeyInfo certificate"]
        );
        let out = check_with(TIME, &cert_property(name, xades::ns::SHA256, "?"));
        assert_eq!(out.errors, vec!["SigningCertificate digest is missing or malformed"]);
        let out = check_with(TIME, &cert_property(name, "urn:md5", &digest(xades::ns::SHA256)));
        assert_eq!(
            out.errors,
            vec!["SigningCertificate digest uses unsupported method: urn:md5"]
        );
        let empty = format!("<xades:{name}><xades:Cert/></xades:{name}>");
        assert_eq!(
            check_with(TIME, &empty).errors,
            vec!["SigningCertificate digest uses unsupported method: "]
        );
    }
}

#[test]
fn older_certificate_property_goes_first() {
    let wrong = cert_property("SigningCertificateV2", xades::ns::SHA256, "AA==");
    let out = check_with(TIME, &format!("{wrong}{}", good_cert()));
    assert_eq!(out.errors, Vec::<String>::new());
}

#[test]
fn digests_are_judged_by_method_and_value() {
    let sha256 = xades::ns::SHA256;
    assert_eq!(
        check_certificate_digest(sha256, Some(vec![1]), Ok(vec![1])),
        Vec::<String>::new()
    );
    assert_eq!(
        check_certificate_digest(sha256, Some(vec![1]), Ok(vec![2])),
        vec!["SigningCertificate digest does not match the KeyInfo certificate"]
    );
    assert_eq!(
        check_certificate_digest(sha256, Some(vec![1]), Err("no".to_string())),
        vec!["SigningCertificate digest is missing or malformed"]
    );
    assert_eq!(
        check_certificate_digest(sha256, None, Ok(vec![1])),
        vec!["SigningCertificate digest is missing or malformed"]
    );
    assert_eq!(
        check_certificate_digest("m", Some(vec![1]), Ok(vec![1])),
        vec!["SigningCertificate digest uses unsupported method: m"]
    );
}

#[test]
fn profile_follows_the_unsigned_properties() {
    let ssp = signed_signature_properties(&format!("{TIME}{}", good_cert()));
    for (content, profile) in [
        ("", Profile::B),
        ("<xades:SignatureTimeStamp/>", Profile::T),
        ("<xades:RevocationValues/>", Profile::B),
        ("<xades:SignatureTimeStamp/><xades:RevocationValues/>", Profile::LT),
    ] {
        let unsigned = format!(
            "<xades:UnsignedProperties><xades:UnsignedSignatureProperties>{content}\
             </xades:UnsignedSignatureProperties></xades:UnsignedProperties>"
        );
        let out = check(&document("#S", &ssp, REFERENCES, FORMATS, &unsigned));
        assert_eq!(out.profile, profile);
        assert!(out.unsigned_node.is_some());
        assert_eq!(out.errors, Vec::<String>::new());
    }
}

#[test]
fn formats_and_references_are_matched() {
    let ssp = signed_signature_properties(&format!("{TIME}{}", good_cert()));
    let out = check(&document("#S", &ssp, REFERENCES, "", ""));
    assert_eq!(
        out.warnings,
        vec!["'\"a.txt\"' not referenced in SignedDataObjectProperties"]
    );
    let stray = "<xades:DataObjectFormat ObjectReference=\"#r1\"/>\
                 <xades:DataObjectFormat ObjectReference=\"r0\"><xades:MimeType/></xades:DataObjectFormat>";
    let out = check(&document("#S", &ssp, REFERENCES, &format!("{FORMATS}{stray}"), ""));
    assert_eq!(
        out.warnings,
        vec![
            "Unknown ds:Reference '\"#r1\"'",
            "No MimeType specified for '\"#r1\"'",
            "Unknown ds:Reference '\"r0\"'"
        ]
    );
    assert_eq!(out.errors, Vec::<String>::new());
}

#[test]
fn format_for_the_properties_reference_is_unknown() {
    let ssp = signed_signature_properties(&format!("{TIME}{}", good_cert()));
    let references = "<ds:Reference Id=\"p\" Type=\"http://uri.etsi.org/01903#SignedProperties\"/>";
    let formats = "<xades:DataObjectFormat ObjectReference=\"#p\"><xades:MimeType/></xades:DataObjectFormat>";
    let out = check(&document("#S", &ssp, references, formats, ""));
    assert_eq!(out.warnings, vec!["Unknown ds:Reference '\"#p\"'"]);
}
