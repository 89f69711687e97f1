//! The errors that path construction reports.

use std::sync::Arc;
use vstd::prelude::*;

verus! {

/// `asn1::ParseError`, carried through unread.
#[verifier::external_type_specification]
#[verifier::external_body]
pub struct ExParseError(asn1::ParseError);

/// An extension that occurs more than once in a certificate, by the dotted
/// form of its object identifier.
#[derive(Debug, PartialEq, Eq)]
pub struct DuplicateExtensionsError {
    pub oid: String,
}

impl Clone for DuplicateExtensionsError {
    fn clone(&self) -> (r: DuplicateExtensionsError)
        ensures
            r == *self,
    {
        DuplicateExtensionsError { oid: self.oid.clone() }
    }
}

/// Why no chain was built.
#[derive(Debug, PartialEq, Eq)]
pub enum ValidationError {
    /// Every candidate issuer was tried; holds the error of the last one.
    CandidatesExhausted(Box<ValidationError>),
    /// An extension's value could not be parsed. The parse error is shared with
    /// the certificate, since it cannot be copied.
    Malformed(Arc<asn1::ParseError>),
    /// A certificate carries the same extension twice.
    DuplicateExtension(DuplicateExtensionsError),
    /// The search was abandoned.
    FatalError(&'static str),
    /// Any other reason.
    Other(String),
}

/// What a [`ValidationError`] says, with its text as a sequence of characters.
pub enum ErrorView {
    CandidatesExhausted(Box<ErrorView>),
    Malformed(asn1::ParseError),
    DuplicateExtension(DuplicateExtensionsError),
    FatalError(Seq<char>),
    Other(Seq<char>),
}

/// The view of `e`, as a function.
pub open spec fn error_view(e: ValidationError) -> ErrorView
    decreases e,
{
    match e {
        ValidationError::CandidatesExhausted(inner) => ErrorView::CandidatesExhausted(
            Box::new(error_view(*inner)),
        ),
        ValidationError::Malformed(parse) => ErrorView::Malformed(*parse),
        ValidationError::DuplicateExtension(duplicate) => ErrorView::DuplicateExtension(duplicate),
        ValidationError::FatalError(text) => ErrorView::FatalError(text@),
        ValidationError::Other(text) => ErrorView::Other(text@),
    }
}

impl View for ValidationError {
    type V = ErrorView;

    open spec fn view(&self) -> ErrorView {
        error_view(*self)
    }
}

/// `r` with the view of its error.
pub open spec fn result_view<T>(r: Result<T, ValidationError>) -> Result<T, ErrorView> {
    match r {
        Ok(v) => Ok(v),
        Err(e) => Err(e@),
    }
}

/// The view of an error that may be absent.
pub open spec fn option_view(e: Option<ValidationError>) -> Option<ErrorView> {
    match e {
        Some(e) => Some(e@),
        None => None,
    }
}

impl From<asn1::ParseError> for ValidationError {
    fn from(value: asn1::ParseError) -> (r: ValidationError) {
        ValidationError::Malformed(Arc::new(value))
    }
}

impl vstd::std_specs::convert::FromSpecImpl<asn1::ParseError> for ValidationError {
    open spec fn obeys_from_spec() -> bool {
        true
    }

    open spec fn from_spec(value: asn1::ParseError) -> ValidationError {
        ValidationError::Malformed(Arc::new(value))
    }
}

impl From<DuplicateExtensionsError> for ValidationError {
    fn from(value: DuplicateExtensionsError) -> (r: ValidationError) {
        ValidationError::DuplicateExtension(value)
    }
}

impl vstd::std_specs::convert::FromSpecImpl<DuplicateExtensionsError> for ValidationError {
    open spec fn obeys_from_spec() -> bool {
        true
    }

    open spec fn from_spec(value: DuplicateExtensionsError) -> ValidationError {
        ValidationError::DuplicateExtension(value)
    }
}

impl ValidationError {
    /// An error of the kind `Other` with the given text.
    pub fn other(text: &str) -> (r: ValidationError)
        ensures
            r@ == ErrorView::Other(text@),
    {
        ValidationError::Other(text.to_string())
    }

    /// What is reported once every candidate issuer has been tried and
    /// `last_err` was the last error seen. An error that is itself
    /// `CandidatesExhausted` is not wrapped a second time.
    pub fn exhausted(last_err: Option<ValidationError>) -> (r: ValidationError)
        ensures
            r@ == exhausted_view(option_view(last_err)),
    {
        match last_err {
            None => {
                let inner = ValidationError::other(
                    "all candidates exhausted with no interior errors",
                );
                ValidationError::CandidatesExhausted(Box::new(inner))
            },
            Some(e) => match e {
                ValidationError::CandidatesExhausted(inner) => {
                    ValidationError::CandidatesExhausted(inner)
                },
                e => ValidationError::CandidatesExhausted(Box::new(e)),
            },
        }
    }
}

/// What [`ValidationError::exhausted`] reports.
pub open spec fn exhausted_view(last_err: Option<ErrorView>) -> ErrorView {
    match last_err {
        None => ErrorView::CandidatesExhausted(
            Box::new(ErrorView::Other("all candidates exhausted with no interior errors"@)),
        ),
        Some(ErrorView::CandidatesExhausted(inner)) => ErrorView::CandidatesExhausted(inner),
        Some(e) => ErrorView::CandidatesExhausted(Box::new(e)),
    }
}

} // verus!
