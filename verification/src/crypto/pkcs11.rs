//! Keys on PKCS#11 tokens.
use std::path::PathBuf;
use vstd::prelude::*;
use vstd::string::*;

use crate::error::{ErrorView, LibError};
use crate::ns;
use crate::text;

verus! {

/// A path of the standard library.
#[verifier::external_type_specification]
#[verifier::external_body]
pub struct ExPathBuf(std::path::PathBuf);

/// Which token to use.
#[derive(Debug, Clone)]
pub enum SlotSelector {
    /// PKCS#11 slot id (`CK_SLOT_ID`).
    Id(u64),
    /// Token label (`CKA_LABEL`).
    TokenLabel(String),
}

/// How to reach a key on a token.
pub struct Pkcs11Options {
    /// Path to the PKCS#11 module.
    pub module: PathBuf,
    /// Token selection.
    pub slot: Option<SlotSelector>,
    /// User PIN.
    pub pin: String,
    /// `CKA_LABEL` of the private key.
    pub key_label: String,
    /// `CKA_ID` to differentiate between objects sharing a label.
    pub key_id: Option<Vec<u8>>,
    /// DER certificate to use instead of reading it from the token.
    pub certificate_der: Option<Vec<u8>>,
}

/// `Zeroize::zeroize` on a string: its bytes are overwritten, and it is empty afterwards.
#[verifier::external_body]
fn wipe(secret: &mut String)
    ensures
        final(secret)@ == Seq::<char>::empty(),
    opens_invariants none
    no_unwind
{
    zeroize::Zeroize::zeroize(secret);
}

impl Drop for Pkcs11Options {
    /// Forgets the PIN.
    fn drop(&mut self)
        ensures
            final(self).pin@ == Seq::<char>::empty(),
        opens_invariants none
        no_unwind
    {
        wipe(&mut self.pin);
    }
}

/// The slot to look into.
pub enum SlotSelect {
    /// The only slot with a token.
    SoleToken,
    /// A slot by its id.
    Id(u64),
    /// A slot by the label of its token.
    TokenLabel(String),
}

/// The private key to look for.
pub enum KeySelect {
    /// By its label.
    Label(String),
    /// By its label and its id.
    LabelAndId(String, Vec<u8>),
}

/// Where the wanted key is on the tokens of a module.
pub struct KeyLocator {
    pub slot: SlotSelect,
    pub key: KeySelect,
}

impl SlotSelect {
    /// Whether this is the slot that a selector calls for.
    pub open spec fn is_for(self, selector: Option<SlotSelector>) -> bool {
        match selector {
            None => self is SoleToken,
            Some(SlotSelector::Id(id)) => self == SlotSelect::Id(id),
            Some(SlotSelector::TokenLabel(label)) => self matches SlotSelect::TokenLabel(l) && l@
                == label@,
        }
    }
}

impl KeySelect {
    /// Whether this is the key with a label and, where one is given, an id.
    pub open spec fn is_for(self, label: Seq<char>, id: Option<Vec<u8>>) -> bool {
        match id {
            None => self matches KeySelect::Label(l) && l@ == label,
            Some(wanted) => self matches KeySelect::LabelAndId(l, i) && l@ == label && i@
                == wanted@,
        }
    }
}

impl Pkcs11Options {
    /// Where the key is that the options call for.
    pub fn locator(&self) -> (r: KeyLocator)
        ensures
            r.slot.is_for(self.slot),
            r.key.is_for(self.key_label@, self.key_id),
    {
        let slot = match &self.slot {
            None => SlotSelect::SoleToken,
            Some(SlotSelector::Id(id)) => SlotSelect::Id(*id),
            Some(SlotSelector::TokenLabel(label)) => SlotSelect::TokenLabel(label.clone()),
        };
        let key = match &self.key_id {
            Some(id) => {
                let copy = vstd::slice::slice_to_vec(id.as_slice());
                assert(copy@ =~= id@);
                KeySelect::LabelAndId(self.key_label.clone(), copy)
            },
            None => KeySelect::Label(self.key_label.clone()),
        };
        KeyLocator { slot, key }
    }
}

/// The curves of keys on tokens.
#[derive(Clone, Copy, PartialEq, Eq, Structural)]
pub enum EcCurve {
    P256,
    P384,
    P521,
}

/// How a token signs: ECDSA over a hash.
#[derive(Clone, Copy, PartialEq, Eq, Structural)]
pub enum SignScheme {
    EcdsaSha256,
    EcdsaSha384,
    EcdsaSha512,
}

/// Why the key of a certificate cannot be used.
pub enum KeyError {
    /// The certificate is malformed.
    Certificate(String),
    /// The key is of another kind.
    Unsupported(String),
    /// Anything else.
    Other(String),
}

/// The mathematical counterpart of [`KeyError`].
pub enum KeyErrorView {
    Certificate(Seq<char>),
    Unsupported(Seq<char>),
    Other(Seq<char>),
}

impl View for KeyError {
    type V = KeyErrorView;

    open spec fn view(&self) -> KeyErrorView {
        match self {
            KeyError::Certificate(m) => KeyErrorView::Certificate(m@),
            KeyError::Unsupported(m) => KeyErrorView::Unsupported(m@),
            KeyError::Other(m) => KeyErrorView::Other(m@),
        }
    }
}

/// The curve of a certificate's key, or why it has none.
pub uninterp spec fn certificate_curve(cert_der: Seq<u8>) -> Result<EcCurve, KeyErrorView>;

/// A curve, or why there is none, by content.
pub open spec fn curve_view(r: Result<EcCurve, KeyError>) -> Result<EcCurve, KeyErrorView> {
    match r {
        Ok(c) => Ok(c),
        Err(e) => Err(e@),
    }
}

/// `tokenkey::KeyAlgorithm::from_certificate_der`.
#[verifier::external_body]
fn find_curve(cert_der: &[u8]) -> (r: Result<EcCurve, KeyError>)
    ensures
        curve_view(r) == certificate_curve(cert_der@),
{
    match tokenkey::KeyAlgorithm::from_certificate_der(cert_der) {
        Ok(tokenkey::KeyAlgorithm::Ec(tokenkey::EcCurve::P256)) => Ok(EcCurve::P256),
        Ok(tokenkey::KeyAlgorithm::Ec(tokenkey::EcCurve::P384)) => Ok(EcCurve::P384),
        Ok(tokenkey::KeyAlgorithm::Ec(tokenkey::EcCurve::P521)) => Ok(EcCurve::P521),
        Err(tokenkey::TokenkeyError::Certificate(m)) => Err(KeyError::Certificate(m)),
        Err(tokenkey::TokenkeyError::Unsupported(m)) => Err(KeyError::Unsupported(m)),
        Err(other) => Err(KeyError::Other(other.to_string())),
    }
}

/// How keys on a curve sign, and the method that stands for it.
pub open spec fn curve_scheme(curve: EcCurve) -> (SignScheme, Seq<char>) {
    match curve {
        EcCurve::P256 => (SignScheme::EcdsaSha256, ns::ECDSA_SHA256@),
        EcCurve::P384 => (SignScheme::EcdsaSha384, ns::ECDSA_SHA384@),
        EcCurve::P521 => (SignScheme::EcdsaSha512, ns::ECDSA_SHA512@),
    }
}

/// Picks how keys on a curve sign.
pub fn scheme_for_curve(curve: EcCurve) -> (r: (SignScheme, &'static str))
    ensures
        (r.0, r.1@) == curve_scheme(curve),
{
    match curve {
        EcCurve::P256 => (SignScheme::EcdsaSha256, ns::ECDSA_SHA256),
        EcCurve::P384 => (SignScheme::EcdsaSha384, ns::ECDSA_SHA384),
        EcCurve::P521 => (SignScheme::EcdsaSha512, ns::ECDSA_SHA512),
    }
}

/// The digest that a scheme signs.
pub open spec fn scheme_digest(scheme: SignScheme) -> Seq<char> {
    match scheme {
        SignScheme::EcdsaSha256 => ns::SHA256@,
        SignScheme::EcdsaSha384 => ns::SHA384@,
        SignScheme::EcdsaSha512 => ns::SHA512@,
    }
}

/// A token hashes by the digest that the signature method names.
pub proof fn scheme_fits_the_method(curve: EcCurve)
    ensures
        crate::crypto::digest_of_method(curve_scheme(curve).1) == Some(
            scheme_digest(curve_scheme(curve).0),
        ),
{
    reveal_strlit("http://www.w3.org/2001/04/xmldsig-more#rsa-sha256");
    reveal_strlit("http://www.w3.org/2001/04/xmldsig-more#rsa-sha384");
    reveal_strlit("http://www.w3.org/2001/04/xmldsig-more#rsa-sha512");
    reveal_strlit("http://www.w3.org/2001/04/xmldsig-more#ecdsa-sha256");
    reveal_strlit("http://www.w3.org/2001/04/xmldsig-more#ecdsa-sha384");
    reveal_strlit("http://www.w3.org/2001/04/xmldsig-more#ecdsa-sha512");
    let (a, b, c) = (ns::ECDSA_SHA256@, ns::ECDSA_SHA384@, ns::ECDSA_SHA512@);
    assert(a[48] == '2' && b[48] == '3' && c[48] == '5');
}

/// Why the key of a certificate cannot be used, as an error of the library.
pub open spec fn key_error(e: KeyErrorView) -> ErrorView {
    match e {
        KeyErrorView::Certificate(m) => ErrorView::Certificate(m),
        KeyErrorView::Unsupported(m) => ErrorView::Unsupported(m),
        KeyErrorView::Other(m) => ErrorView::Certificate(m),
    }
}

/// Translates why the key of a certificate cannot be used.
pub fn certificate_err(e: KeyError) -> (r: LibError)
    ensures
        r@ == key_error(e@),
{
    match e {
        KeyError::Certificate(m) => LibError::Certificate(m),
        KeyError::Unsupported(m) => LibError::Unsupported(m),
        KeyError::Other(m) => LibError::Certificate(m),
    }
}

/// How the key of a certificate signs, and the method that stands for it; or why it cannot.
pub open spec fn scheme_outcome(curve: Result<EcCurve, KeyErrorView>) -> Result<
    (SignScheme, Seq<char>),
    ErrorView,
> {
    match curve {
        Ok(c) => Ok(curve_scheme(c)),
        Err(e) => Err(key_error(e)),
    }
}

/// Finds how a key on a curve signs, from what was found of the curve.
pub fn scheme_for_key(curve: Result<EcCurve, KeyError>) -> (r: Result<
    (SignScheme, &'static str),
    LibError,
>)
    ensures
        match r {
            Ok(s) => scheme_outcome(curve_view(curve)) == Ok::<(SignScheme, Seq<char>), ErrorView>(
                (s.0, s.1@),
            ),
            Err(e) => scheme_outcome(curve_view(curve)) == Err::<
                (SignScheme, Seq<char>),
                ErrorView,
            >(e@),
        },
{
    match curve {
        Ok(c) => Ok(scheme_for_curve(c)),
        Err(e) => Err(certificate_err(e)),
    }
}

/// Finds how the key of a certificate signs.
pub fn scheme_for_certificate(cert_der: &[u8]) -> (r: Result<(SignScheme, &'static str), LibError>)
    ensures
        match r {
            Ok(s) => scheme_outcome(certificate_curve(cert_der@)) == Ok::<
                (SignScheme, Seq<char>),
                ErrorView,
            >((s.0, s.1@)),
            Err(e) => scheme_outcome(certificate_curve(cert_der@)) == Err::<
                (SignScheme, Seq<char>),
                ErrorView,
            >(e@),
        },
{
    scheme_for_key(find_curve(cert_der))
}

/// Error for a key without a certificate.
pub fn no_certificate_err(what: &str) -> (r: LibError)
    ensures
        r@ == ErrorView::Certificate("no certificate available for "@ + what@),
{
    LibError::Certificate(text::joined("no certificate available for ", what))
}

/// Wraps a PKCS#11 setup failure.
pub fn setup_err(e: &str) -> (r: LibError)
    ensures
        r@ == ErrorView::Crypto("PKCS#11: "@ + e@),
{
    LibError::Crypto(text::joined("PKCS#11: ", e))
}

/// Wraps a PKCS#11 signing failure.
pub fn sign_err(e: &str) -> (r: LibError)
    ensures
        r@ == ErrorView::Signing("PKCS#11: "@ + e@),
{
    LibError::Signing(text::joined("PKCS#11: ", e))
}

/// A signer backed by a private key on a PKCS#11 token: what it signs with, and for whom.
pub struct Pkcs11Signer {
    scheme: SignScheme,
    algorithm_uri: &'static str,
    cert_der: Vec<u8>,
}

/// The mathematical counterpart of [`Pkcs11Signer`].
pub struct TokenSignerView {
    pub scheme: SignScheme,
    pub algorithm_uri: Seq<char>,
    pub cert_der: Seq<u8>,
}

impl View for Pkcs11Signer {
    type V = TokenSignerView;

    closed spec fn view(&self) -> TokenSignerView {
        TokenSignerView {
            scheme: self.scheme,
            algorithm_uri: self.algorithm_uri@,
            cert_der: self.cert_der@,
        }
    }
}

/// A signer or an error of the library, by content.
pub open spec fn token_signer_result(r: Result<Pkcs11Signer, LibError>) -> Result<
    TokenSignerView,
    ErrorView,
> {
    match r {
        Ok(s) => Ok(s@),
        Err(e) => Err(e@),
    }
}

/// The signer for a certificate, or why there is none.
pub open spec fn token_signer_for(cert_der: Seq<u8>) -> Result<TokenSignerView, ErrorView> {
    match scheme_outcome(certificate_curve(cert_der)) {
        Ok((scheme, algorithm_uri)) => Ok(TokenSignerView { scheme, algorithm_uri, cert_der }),
        Err(e) => Err(e),
    }
}

/// The signer for a key on a token: by the given certificate, or else by the one on the token.
pub open spec fn token_signer_outcome(
    given: Option<Seq<u8>>,
    on_token: Option<Seq<u8>>,
    what: Seq<char>,
) -> Result<TokenSignerView, ErrorView> {
    match given {
        Some(der) => token_signer_for(der),
        None => match on_token {
            Some(der) => token_signer_for(der),
            None => Err(ErrorView::Certificate("no certificate available for "@ + what)),
        },
    }
}

impl Pkcs11Signer {
    /// Completes opening a key on a token.
    ///
    /// `opened` is what opening the key gave: the certificate that belongs to it on the token, if
    /// there is one, or the reason why the key could not be opened.
    pub fn open(opts: &Pkcs11Options, opened: Result<Option<Vec<u8>>, String>) -> (r: Result<
        Self,
        LibError,
    >)
        ensures
            match opened {
                Err(e) => r matches Err(error) && error@ == ErrorView::Crypto("PKCS#11: "@ + e@),
                Ok(on_token) => token_signer_result(r) == token_signer_outcome(
                    text::opt_bytes(opts.certificate_der),
                    text::opt_bytes(on_token),
                    "key with label "@ + text::quoted_text(opts.key_label@),
                ),
            },
    {
        let on_token = match opened {
            Ok(c) => c,
            Err(e) => {
                return Err(setup_err(e.as_str()));
            },
        };
        let given = match &opts.certificate_der {
            Some(der) => {
                let copy = vstd::slice::slice_to_vec(der.as_slice());
                assert(copy@ =~= der@);
                Some(copy)
            },
            None => None,
        };
        let label = text::quoted(opts.key_label.as_str());
        let what = text::joined("key with label ", label.as_str());
        Self::for_certificate(given, on_token, what.as_str())
    }

    /// Wraps an already opened key, whose certificate on the token is `on_token`.
    pub fn from_token_key(on_token: Option<Vec<u8>>, certificate_der: Option<Vec<u8>>) -> (r:
        Result<Pkcs11Signer, LibError>)
        ensures
            token_signer_result(r) == token_signer_outcome(
                text::opt_bytes(certificate_der),
                text::opt_bytes(on_token),
                "the given key"@,
            ),
    {
        Self::for_certificate(certificate_der, on_token, "the given key")
    }

    fn for_certificate(given: Option<Vec<u8>>, on_token: Option<Vec<u8>>, what: &str) -> (r: Result<
        Pkcs11Signer,
        LibError,
    >)
        ensures
            token_signer_result(r) == token_signer_outcome(
                text::opt_bytes(given),
                text::opt_bytes(on_token),
                what@,
            ),
    {
        let cert_der = match given {
            Some(der) => der,
            None => match on_token {
                Some(der) => der,
                None => {
                    return Err(no_certificate_err(what));
                },
            },
        };
        let (scheme, algorithm_uri) = scheme_for_certificate(cert_der.as_slice())?;
        Ok(Pkcs11Signer { scheme, algorithm_uri, cert_der })
    }

    /// How the token signs.
    pub fn scheme(&self) -> (r: SignScheme)
        ensures
            r == self@.scheme,
    {
        self.scheme
    }

    /// Identifier of the signature method.
    pub fn algorithm_uri(&self) -> (r: &str)
        ensures
            r@ == self@.algorithm_uri,
    {
        self.algorithm_uri
    }

    /// The signing certificate.
    pub fn certificate_der(&self) -> (r: &[u8])
        ensures
            r@ == self@.cert_der,
    {
        self.cert_der.as_slice()
    }

    /// What signing on the token gave, with failures as the library's error.
    pub fn signature(&self, signed: Result<Vec<u8>, String>) -> (r: Result<Vec<u8>, LibError>)
        ensures
            match signed {
                Ok(value) => r == Ok::<Vec<u8>, LibError>(value),
                Err(e) => r matches Err(error) && error@ == ErrorView::Signing("PKCS#11: "@ + e@),
            },
    {
        match signed {
            Ok(value) => Ok(value),
            Err(e) => Err(sign_err(e.as_str())),
        }
    }
}

/// The key that options call for is looked for by their label and, where they have one, their id;
/// in the slot that they name, or else in the only one with a token.
pub proof fn locator_is_what_the_options_name(opts: &Pkcs11Options, r: KeyLocator)
    requires
        call_ensures(Pkcs11Options::locator, (opts,), r),
    ensures
        opts.slot is None <==> r.slot is SoleToken,
        opts.slot matches Some(SlotSelector::Id(id)) ==> r.slot == SlotSelect::Id(id),
        opts.slot matches Some(SlotSelector::TokenLabel(label)) ==> (
        r.slot matches SlotSelect::TokenLabel(l) && l@ == label@),
        opts.key_id is None ==> (r.key matches KeySelect::Label(l) && l@ == opts.key_label@),
        opts.key_id matches Some(id) ==> (r.key matches KeySelect::LabelAndId(l, i) && l@
            == opts.key_label@ && i@ == id@),
{
}

/// A signer for an opened key shows the certificate that was given, or else the one on the token.
pub proof fn token_signer_shows_its_certificate(
    on_token: Option<Vec<u8>>,
    given: Option<Vec<u8>>,
    r: Result<Pkcs11Signer, LibError>,
    shown: &[u8],
)
    requires
        call_ensures(Pkcs11Signer::from_token_key, (on_token, given), r),
        r matches Ok(signer) ==> call_ensures(Pkcs11Signer::certificate_der, (&signer,), shown),
    ensures
        r is Ok ==> (given matches Some(der) ==> shown@ == der@),
        r is Ok && given is None ==> (on_token matches Some(der) && shown@ == der@),
        given is None && on_token is None ==> r is Err,
        given matches Some(der) ==> (r is Ok <==> certificate_curve(der@) is Ok),
        given is None ==> (on_token matches Some(der) ==> (r is Ok <==> certificate_curve(
            der@,
        ) is Ok)),
{
}

} // verus!
