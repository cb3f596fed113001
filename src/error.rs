//! The ways a request can fail.
use vstd::prelude::*;

verus! {

/// Why a request produced no overlay.
#[derive(Clone, Copy, Debug, PartialEq, Eq, Structural)]
pub enum HttpError {
    /// The request target is not the overlay's route.
    NotFound,
    /// A date parameter is missing or malformed.
    BadRequest,
    /// A source document could not be fetched or decoded.
    FetchError,
    /// A report that passed the validity filter lacks its path block or issue time.
    ExtractionFault,
}

impl HttpError {
    /// The HTTP status that answers this error.
    pub fn status_code(&self) -> (r: u16)
        ensures
            r == match *self {
                HttpError::NotFound => 404u16,
                HttpError::BadRequest => 400u16,
                _ => 500u16,
            },
    {
        match self {
            HttpError::NotFound => 404,
            HttpError::BadRequest => 400,
            _ => 500,
        }
    }
}

} // verus!
