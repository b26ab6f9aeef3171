//! Errors of URL generation, and the error that becomes a response.

use vstd::prelude::*;
use crate::httpresponse::HttpResponse;

verus! {

/// Why a URL could not be made for a named resource.
#[derive(Clone, Copy, Debug, PartialEq, Eq, Structural)]
pub enum UrlGenerationError {
    /// No resource has that name.
    ResourceNotFound,
    /// The pattern has more variable segments than elements were given.
    NotEnoughElements,
}


/// An error of a handler or of a middleware: what went wrong, and the
/// status of the response that it becomes.
#[derive(Debug)]
pub struct Error {
    pub status: u16,
    pub cause: String,
}

impl Error {
    /// An error that becomes a response with the status `status`.
    pub fn new(status: u16, cause: &str) -> (r: Error)
        ensures
            r.status == status,
            r.cause@ == cause@,
    {
        Error { status, cause: cause.to_owned() }
    }

    /// The response that the error becomes.
    pub fn error_response(&self) -> (r: HttpResponse)
        ensures
            r.status == self.status,
            r.headers@.len() == 0,
            r.body is Empty,
    {
        HttpResponse::new(self.status)
    }
}

} // verus!
