//! The structured failures that ingestion reports.

use vstd::prelude::*;

verus! {

/// Why a bundle could not be ingested or one of its payloads not be read.
#[derive(Debug)]
pub enum ProductionIngestionError {
    UnsupportedFormat { reason: String },
    UnauthorizedSource { reason: String },
    RequiredPartMissing { part: String },
    MalformedMetadata { reason: String },
    PayloadOutOfBounds { identity: String },
    PayloadUnavailable { identity: String },
    IntegrityMismatch { identity: String },
    ImplementationUnavailable { reason: String },
}

/// The category of a [`ProductionIngestionError`].
#[derive(Clone, Copy, Debug, PartialEq, Eq, Structural)]
pub enum IngestionErrorKind {
    UnsupportedFormat,
    UnauthorizedSource,
    RequiredPartMissing,
    MalformedMetadata,
    PayloadOutOfBounds,
    PayloadUnavailable,
    IntegrityMismatch,
    ImplementationUnavailable,
}

/// What an error says: its category and its text.
pub type ErrorView = (IngestionErrorKind, Seq<char>);

impl View for ProductionIngestionError {
    type V = ErrorView;

    open spec fn view(&self) -> ErrorView {
        match self {
            ProductionIngestionError::UnsupportedFormat { reason } => (
                IngestionErrorKind::UnsupportedFormat,
                reason@,
            ),
            ProductionIngestionError::UnauthorizedSource { reason } => (
                IngestionErrorKind::UnauthorizedSource,
                reason@,
            ),
            ProductionIngestionError::RequiredPartMissing { part } => (
                IngestionErrorKind::RequiredPartMissing,
                part@,
            ),
            ProductionIngestionError::MalformedMetadata { reason } => (
                IngestionErrorKind::MalformedMetadata,
                reason@,
            ),
            ProductionIngestionError::PayloadOutOfBounds { identity } => (
                IngestionErrorKind::PayloadOutOfBounds,
                identity@,
            ),
            ProductionIngestionError::PayloadUnavailable { identity } => (
                IngestionErrorKind::PayloadUnavailable,
                identity@,
            ),
            ProductionIngestionError::IntegrityMismatch { identity } => (
                IngestionErrorKind::IntegrityMismatch,
                identity@,
            ),
            ProductionIngestionError::ImplementationUnavailable { reason } => (
                IngestionErrorKind::ImplementationUnavailable,
                reason@,
            ),
        }
    }
}

/// A refusal of malformed metadata, with its text.
pub open spec fn malformed_view(reason: Seq<char>) -> ErrorView {
    (IngestionErrorKind::MalformedMetadata, reason)
}

/// A refusal of an unsupported format, with its text.
pub open spec fn unsupported_view(reason: Seq<char>) -> ErrorView {
    (IngestionErrorKind::UnsupportedFormat, reason)
}

/// A result by the views of what it holds.
pub open spec fn outcome<T: View>(result: Result<T, ProductionIngestionError>) -> Result<
    T::V,
    ErrorView,
> {
    match result {
        Ok(value) => Ok(value@),
        Err(error) => Err(error@),
    }
}

/// A result whose success is a plain value, by the view of its error.
pub open spec fn plain_outcome<T>(result: Result<T, ProductionIngestionError>) -> Result<
    T,
    ErrorView,
> {
    match result {
        Ok(value) => Ok(value),
        Err(error) => Err(error@),
    }
}

/// A refusal of malformed metadata.
pub fn malformed(reason: String) -> (error: ProductionIngestionError)
    ensures
        error@ == malformed_view(reason@),
{
    ProductionIngestionError::MalformedMetadata { reason }
}

} // verus!
