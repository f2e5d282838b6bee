//! The library's error type.
use vstd::prelude::*;

verus! {

/// What can go wrong while signing or while preparing a validation.
///
/// Every variant carries a message for people.
#[derive(Debug)]
pub enum LibError {
    /// A certificate is missing, malformed or does not fit.
    Certificate(String),
    /// A cryptographic operation failed.
    Crypto(String),
    /// A signature could not be produced.
    Signing(String),
    /// A time-stamping service failed.
    Timestamp(String),
    /// An OCSP service failed, or its answer is not usable.
    Ocsp(String),
    /// A method, key or algorithm is not supported.
    Unsupported(String),
    /// A document could not be written or read.
    Xml(String),
}

/// The mathematical counterpart of [`LibError`].
pub enum ErrorView {
    Certificate(Seq<char>),
    Crypto(Seq<char>),
    Signing(Seq<char>),
    Timestamp(Seq<char>),
    Ocsp(Seq<char>),
    Unsupported(Seq<char>),
    Xml(Seq<char>),
}

impl View for LibError {
    type V = ErrorView;

    open spec fn view(&self) -> ErrorView {
        match self {
            LibError::Certificate(m) => ErrorView::Certificate(m@),
            LibError::Crypto(m) => ErrorView::Crypto(m@),
            LibError::Signing(m) => ErrorView::Signing(m@),
            LibError::Timestamp(m) => ErrorView::Timestamp(m@),
            LibError::Ocsp(m) => ErrorView::Ocsp(m@),
            LibError::Unsupported(m) => ErrorView::Unsupported(m@),
            LibError::Xml(m) => ErrorView::Xml(m@),
        }
    }
}

/// Bytes or an error of the library, by content.
pub open spec fn bytes_result(r: Result<Vec<u8>, LibError>) -> Result<Seq<u8>, ErrorView> {
    match r {
        Ok(b) => Ok(b@),
        Err(e) => Err(e@),
    }
}

/// An error keeps its kind and its message.
pub proof fn error_counts_in_full(error: LibError)
    ensures
        error matches LibError::Certificate(m) ==> error@ == ErrorView::Certificate(m@),
        error matches LibError::Crypto(m) ==> error@ == ErrorView::Crypto(m@),
        error matches LibError::Signing(m) ==> error@ == ErrorView::Signing(m@),
        error matches LibError::Timestamp(m) ==> error@ == ErrorView::Timestamp(m@),
        error matches LibError::Ocsp(m) ==> error@ == ErrorView::Ocsp(m@),
        error matches LibError::Unsupported(m) ==> error@ == ErrorView::Unsupported(m@),
        error matches LibError::Xml(m) ==> error@ == ErrorView::Xml(m@),
{
}

} // verus!
