//! Certificates, as far as signatures need to look into them.
use vstd::prelude::*;
use x509_cert::der::{Decode, Encode};

use crate::codec;
use crate::crypto::ber;
use crate::error::{ErrorView, LibError};
use crate::text;

verus! {

/// A certificate that parses.
pub struct Cert {
    /// The certificate as it was given.
    pub der: Vec<u8>,
    /// DER of the subject name.
    pub subject: Vec<u8>,
    /// DER of the issuer name.
    pub issuer: Vec<u8>,
    /// DER of the serial number.
    pub serial: Vec<u8>,
    /// The subject name for people.
    pub subject_text: String,
    /// The issuer name for people.
    pub issuer_text: String,
}

/// The mathematical counterpart of [`Cert`].
pub struct CertView {
    pub der: Seq<u8>,
    pub subject: Seq<u8>,
    pub issuer: Seq<u8>,
    pub serial: Seq<u8>,
    pub subject_text: Seq<char>,
    pub issuer_text: Seq<char>,
}

impl View for Cert {
    type V = CertView;

    open spec fn view(&self) -> CertView {
        CertView {
            der: self.der@,
            subject: self.subject@,
            issuer: self.issuer@,
            serial: self.serial@,
            subject_text: self.subject_text@,
            issuer_text: self.issuer_text@,
        }
    }
}

/// The contents of a list of certificates.
pub open spec fn cert_views(list: Seq<Cert>) -> Seq<CertView> {
    list.map_values(|c: Cert| c@)
}

/// The encodings of a list of certificates.
pub open spec fn ders(list: Seq<CertView>) -> Seq<Seq<u8>> {
    list.map_values(|c: CertView| c.der)
}

/// Appending to a list of certificates appends to its contents.
pub proof fn lemma_cert_views_push(list: Seq<Cert>, item: Cert)
    ensures
        cert_views(list.push(item)) == cert_views(list).push(item@),
{
    assert(cert_views(list.push(item)) =~= cert_views(list).push(item@));
}

/// The contents of two lists of certificates, one after the other.
pub proof fn lemma_cert_views_concat(a: Seq<Cert>, b: Seq<Cert>)
    ensures
        cert_views(a + b) == cert_views(a) + cert_views(b),
{
    assert(cert_views(a + b) =~= cert_views(a) + cert_views(b));
}

impl Cert {
    /// A copy of the certificate.
    pub fn copy(&self) -> (r: Cert)
        ensures
            r@ == self@,
    {
        let r = Cert {
            der: vstd::slice::slice_to_vec(self.der.as_slice()),
            subject: vstd::slice::slice_to_vec(self.subject.as_slice()),
            issuer: vstd::slice::slice_to_vec(self.issuer.as_slice()),
            serial: vstd::slice::slice_to_vec(self.serial.as_slice()),
            subject_text: self.subject_text.clone(),
            issuer_text: self.issuer_text.clone(),
        };
        assert(r@.der =~= self@.der && r@.subject =~= self@.subject && r@.issuer =~= self@.issuer
            && r@.serial =~= self@.serial);
        r
    }
}

/// Copies of some certificates.
pub(crate) fn copies(certs: &Vec<Cert>) -> (r: Vec<Cert>)
    ensures
        cert_views(r@) == cert_views(certs@),
{
    let ghost all = cert_views(certs@);
    let mut out: Vec<Cert> = Vec::new();
    let mut i: usize = 0;
    assert(cert_views(out@) =~= all.take(0));
    while i < certs.len()
        invariant
            i <= certs@.len(),
            all == cert_views(certs@),
            cert_views(out@) == all.take(i as int),
        decreases certs@.len() - i,
    {
        let c = certs[i].copy();
        proof {
            lemma_cert_views_push(out@, c);
            assert(all.take(i + 1) =~= all.take(i as int).push(certs@[i as int]@));
        }
        out.push(c);
        i += 1;
    }
    assert(all.take(i as int) =~= all);
    out
}

/// Subject, issuer and serial number of a certificate as DER, and its subject and issuer for
/// people; or why the bytes are no certificate.
pub uninterp spec fn certificate_parts(der: Seq<u8>) -> Result<
    (Seq<u8>, Seq<u8>, Seq<u8>, Seq<char>, Seq<char>),
    Seq<char>,
>;

/// What a certificate holds, or why the bytes are none.
pub open spec fn certificate(der: Seq<u8>) -> Result<CertView, Seq<char>> {
    match certificate_parts(der) {
        Ok((subject, issuer, serial, subject_text, issuer_text)) => Ok(
            CertView { der, subject, issuer, serial, subject_text, issuer_text },
        ),
        Err(e) => Err(e),
    }
}

/// The parts of a parsed certificate, or the failure as text.
pub open spec fn parts_result(r: Result<Cert, String>) -> Result<
    (Seq<u8>, Seq<u8>, Seq<u8>, Seq<char>, Seq<char>),
    Seq<char>,
> {
    match r {
        Ok(c) => Ok((c.subject@, c.issuer@, c.serial@, c.subject_text@, c.issuer_text@)),
        Err(e) => Err(e@),
    }
}

/// A parsed certificate, or the failure as text.
pub open spec fn cert_result(r: Result<Cert, String>) -> Result<CertView, Seq<char>> {
    match r {
        Ok(c) => Ok(c@),
        Err(e) => Err(e@),
    }
}

/// Whether bytes are a certificate.
pub open spec fn is_certificate(der: Seq<u8>) -> bool {
    certificate(der) is Ok
}

/// `x509_cert::Certificate::from_der`, with the names and the serial number of the certificate.
///
/// Two names are equal exactly if their encodings are, so that names are compared by encoding.
#[verifier::external_body]
fn read_certificate(der: &[u8]) -> (r: Result<Cert, String>)
    ensures
        parts_result(r) == certificate_parts(der@),
        r is Ok ==> r->Ok_0.der@ == der@,
{
    let tbs = x509_cert::Certificate::from_der(der).map_err(|e| e.to_string())?.tbs_certificate;
    Ok(Cert {
        der: der.to_vec(),
        subject: tbs.subject.to_der().unwrap_or_default(),
        issuer: tbs.issuer.to_der().unwrap_or_default(),
        serial: tbs.serial_number.to_der().unwrap_or_default(),
        subject_text: tbs.subject.to_string(),
        issuer_text: tbs.issuer.to_string(),
    })
}

/// Parses a certificate.
pub fn parse_certificate(der: &[u8]) -> (r: Result<Cert, String>)
    ensures
        cert_result(r) == certificate(der@),
{
    read_certificate(der)
}

/// An issuer and a serial number as one value: the issuer as the only one of its general names.
pub open spec fn issuer_serial(issuer: Seq<u8>, serial: Seq<u8>) -> Seq<u8> {
    codec::der_value(0x30, codec::der_value(0x30, codec::der_value(0xa4, issuer)) + serial)
}

/// The `IssuerSerial` value for an issuer and a serial number, if it does not grow too long.
pub open spec fn issuer_serial_value(issuer: Seq<u8>, serial: Seq<u8>) -> Result<
    Seq<u8>,
    ErrorView,
> {
    if issuer_serial(issuer, serial).len() <= codec::MAX_DER_LENGTH {
        Ok(issuer_serial(issuer, serial))
    } else {
        Err(ErrorView::Certificate("IssuerSerial encoding: integer overflow"@))
    }
}

/// Encodes an issuer and a serial number, both DER, as an `IssuerSerial` value.
pub fn encode_issuer_serial(issuer: &[u8], serial: &[u8]) -> (r: Result<Vec<u8>, LibError>)
    ensures
        match r {
            Ok(v) => issuer_serial_value(issuer@, serial@) == Ok::<Seq<u8>, ErrorView>(v@),
            Err(e) => issuer_serial_value(issuer@, serial@) == Err::<Seq<u8>, ErrorView>(e@),
        },
{
    if let Some(name) = codec::frame_der(0xa4, issuer) {
        if let Some(names) = codec::frame_der(0x30, name.as_slice()) {
            let mut content = names;
            if serial.len() <= codec::MAX_DER_LENGTH {
                content.extend_from_slice(serial);
                assert(content@ =~= codec::der_value(0x30, codec::der_value(0xa4, issuer@))
                    + serial@);
                if let Some(value) = codec::frame_der(0x30, content.as_slice()) {
                    return Ok(value);
                }
            }
        }
    }
    assert(issuer_serial(issuer@, serial@).len() > codec::MAX_DER_LENGTH);
    Err(LibError::Certificate("IssuerSerial encoding: integer overflow".to_owned()))
}

/// The `IssuerSerial` value of a certificate, or why there is none.
pub open spec fn issuer_serial_outcome(cert_der: Seq<u8>) -> Result<Seq<u8>, ErrorView> {
    match certificate(cert_der) {
        Err(e) => Err(ErrorView::Certificate("signing certificate: "@ + e)),
        Ok(cert) => issuer_serial_value(cert.issuer, cert.serial),
    }
}

/// Encodes the `IssuerSerial` value that `SigningCertificateV2` refers to a certificate by.
pub fn issuer_serial_v2(cert_der: &[u8]) -> (r: Result<Vec<u8>, LibError>)
    ensures
        match r {
            Ok(v) => issuer_serial_outcome(cert_der@) == Ok::<Seq<u8>, ErrorView>(v@),
            Err(e) => issuer_serial_outcome(cert_der@) == Err::<Seq<u8>, ErrorView>(e@),
        },
{
    match parse_certificate(cert_der) {
        Ok(cert) => encode_issuer_serial(cert.issuer.as_slice(), cert.serial.as_slice()),
        Err(e) => Err(LibError::Certificate(text::joined("signing certificate: ", e.as_str()))),
    }
}

/// Whether some bytes are more than line breaks.
pub open spec fn is_not_blank(data: Seq<u8>) -> bool {
    exists|i: int| 0 <= i < data.len() && #[trigger] data[i] != 0x0d && data[i] != 0x0a
}

/// Tells whether some bytes are more than line breaks.
pub(crate) fn has_content(data: &[u8]) -> (r: bool)
    ensures
        r == is_not_blank(data@),
{
    let mut i: usize = 0;
    while i < data.len()
        invariant
            i <= data@.len(),
            forall|k: int| 0 <= k < i ==> #[trigger] data@[k] == 0x0d || data@[k] == 0x0a,
        decreases data@.len() - i,
    {
        if data[i] != 0x0d && data[i] != 0x0a {
            return true;
        }
        i += 1;
    }
    false
}

/// Encodings, or their failures as text.
pub open spec fn encodings(list: Seq<Result<Vec<u8>, String>>) -> Seq<Result<Seq<u8>, Seq<char>>> {
    list.map_values(|r: Result<Vec<u8>, String>| text::bytes_view(r))
}

/// The certificates of some PEM data in order, each encoded anew; or why the data is not PEM.
pub uninterp spec fn pem_certificates(pem: Seq<u8>) -> Result<
    Seq<Result<Seq<u8>, Seq<char>>>,
    Seq<char>,
>;

/// Certificates from PEM, or the failure as text.
pub open spec fn pem_view(r: Result<Vec<Result<Vec<u8>, String>>, String>) -> Result<
    Seq<Result<Seq<u8>, Seq<char>>>,
    Seq<char>,
> {
    match r {
        Ok(list) => Ok(encodings(list@)),
        Err(e) => Err(e@),
    }
}

/// `x509_cert::Certificate::load_pem_chain`, and `to_der` on each certificate.
///
/// Data that is empty but for line breaks is left out: there the outside function subtracts one
/// from a length of zero.
#[verifier::external_body]
pub(crate) fn load_pem_chain(pem: &[u8]) -> (r: Result<Vec<Result<Vec<u8>, String>>, String>)
    requires
        is_not_blank(pem@),
    ensures
        pem_view(r) == pem_certificates(pem@),
{
    x509_cert::Certificate::load_pem_chain(pem)
        .map(|certs| certs.iter().map(|c| c.to_der().map_err(|e| e.to_string())).collect())
        .map_err(|e| e.to_string())
}

/// The issuer and serial number of a certificate are encoded so that they read back: a sequence
/// that holds a sequence of one directory name, which is the issuer, and behind it the serial
/// number; both are the bytes that parsing the certificate gives.
pub proof fn issuer_serial_reads_back(cert_der: Seq<u8>, value: Seq<u8>)
    requires
        issuer_serial_outcome(cert_der) == Ok::<Seq<u8>, ErrorView>(value),
    ensures
        ({
            let end = value.len() as int;
            let whole = ber::part(value, 0, end);
            let names = ber::part(value, (whole->Some_0).0, end);
            let name = ber::part(value, (names->Some_0).0, (names->Some_0).1);
            let parts = certificate_parts(cert_der);
            &&& parts is Ok
            &&& whole is Some && names is Some && name is Some
            &&& value[0] == 0x30 && (whole->Some_0).1 == end
            &&& value[(whole->Some_0).0] == 0x30
            &&& value[(names->Some_0).0] == 0xa4
            &&& (name->Some_0).2 == (names->Some_0).1
            &&& value.subrange((name->Some_0).0, (name->Some_0).1) == (parts->Ok_0).1
            &&& value.skip((names->Some_0).2) == (parts->Ok_0).2
        }),
{
    let cert = certificate(cert_der)->Ok_0;
    let name = codec::der_value(0xa4, cert.issuer);
    let names = codec::der_value(0x30, name);
    let content = names + cert.serial;
    let end = value.len() as int;
    let a = end - content.len();
    let c = a + names.len();
    let b = c - name.len();
    assert(value == codec::der_value(0x30, content));
    assert(value.subrange(0, end) =~= value);
    codec::framed_value_reads_back_inside(value, 0, end, 0x30, content);
    assert(value.subrange(a, c) =~= names) by {
        assert(value.subrange(a, end).take(names.len() as int) =~= names);
        assert(value.subrange(a, end).take(names.len() as int) =~= value.subrange(a, c));
    }
    codec::framed_value_reads_back_inside(value, a, end, 0x30, name);
    codec::framed_value_reads_back_inside(value, b, c, 0xa4, cert.issuer);
    assert(value.skip(c) =~= cert.serial) by {
        assert(value.subrange(a, end).skip(names.len() as int) =~= cert.serial);
        assert(value.subrange(a, end).skip(names.len() as int) =~= value.skip(c));
    }
}

/// There is such an encoding exactly if the bytes are a certificate, unless it grows beyond what
/// is handled; without a certificate, the reason is said.
pub proof fn issuer_serial_is_there(cert_der: Seq<u8>)
    ensures
        certificate_parts(cert_der) matches Err(e) ==> issuer_serial_outcome(cert_der) == Err::<
            Seq<u8>,
            ErrorView,
        >(ErrorView::Certificate("signing certificate: "@ + e)),
        certificate_parts(cert_der) matches Ok(parts) ==> (parts.1.len() + parts.2.len()
            <= 0xfff_ff00 ==> issuer_serial_outcome(cert_der) is Ok),
        issuer_serial_outcome(cert_der) matches Ok(value) ==> value.len() <= 0xfff_ffff,
        certificate_parts(cert_der) is Ok && issuer_serial_outcome(cert_der) is Err
            ==> issuer_serial_outcome(cert_der) == Err::<Seq<u8>, ErrorView>(
            ErrorView::Certificate("IssuerSerial encoding: integer overflow"@),
        ),
{
}

/// A certificate counts in full.
pub proof fn certificate_counts_in_full(cert: Cert, list: Seq<Cert>)
    ensures
        cert@.der == cert.der@,
        cert@.subject == cert.subject@,
        cert@.issuer == cert.issuer@,
        cert@.serial == cert.serial@,
        cert@.subject_text == cert.subject_text@,
        cert@.issuer_text == cert.issuer_text@,
        cert_views(list).len() == list.len(),
        forall|i: int| 0 <= i < list.len() ==> #[trigger] cert_views(list)[i] == list[i]@,
        ders(cert_views(list)).len() == list.len(),
        forall|i: int| 0 <= i < list.len() ==> #[trigger] ders(cert_views(list))[i] == list[i].der@,
{
}

/// Only data without anything but line breaks is blank.
pub proof fn blank_data_is_line_breaks(data: Seq<u8>, i: int)
    requires
        0 <= i < data.len(),
    ensures
        data[i] != 0x0d && data[i] != 0x0a ==> is_not_blank(data),
        !is_not_blank(data) ==> data[i] == 0x0d || data[i] == 0x0a,
        !is_not_blank(Seq::<u8>::empty()),
{
}

/// Encodings are viewed item by item.
pub proof fn encodings_count_in_full(list: Seq<Result<Vec<u8>, String>>)
    ensures
        encodings(list).len() == list.len(),
        forall|i: int|
            0 <= i < list.len() ==> match #[trigger] list[i] {
                Ok(der) => encodings(list)[i] == Ok::<Seq<u8>, Seq<char>>(der@),
                Err(e) => encodings(list)[i] == Err::<Seq<u8>, Seq<char>>(e@),
            },
{
    assert forall|i: int| 0 <= i < list.len() implies match #[trigger] list[i] {
        Ok(der) => encodings(list)[i] == Ok::<Seq<u8>, Seq<char>>(der@),
        Err(e) => encodings(list)[i] == Err::<Seq<u8>, Seq<char>>(e@),
    } by {
        assert(encodings(list)[i] == text::bytes_view(list[i]));
    }
}

} // verus!
