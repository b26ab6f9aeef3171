//! Middlewares: what they answer in each of their three phases.

use vstd::prelude::*;
use crate::error::Error;
use crate::httprequest::HttpRequest;
use crate::httpresponse::HttpResponse;

pub mod defaultheaders;

verus! {

/// What a middleware answers when a request starts.
#[derive(Debug)]
pub enum Started<F> {
    /// Go on.
    Done,
    /// Here is the response: the handler is not to run.
    Response(HttpResponse),
    /// Wait for this; it may yield a response.
    Future(F),
}

/// What a middleware answers to a response.
#[derive(Debug)]
pub enum Response<F> {
    /// The response, as it is now.
    Done(HttpResponse),
    /// Wait for this; it yields the response.
    Future(F),
}

/// What a middleware answers when the response has gone out.
#[derive(Debug)]
pub enum Finished<F> {
    /// Nothing more.
    Done,
    /// Wait for this.
    Future(F),
}

/// An interceptor of requests and responses.
pub trait Middleware<S> {
    /// What `start` may make the caller wait for.
    type Starting;

    /// What `response` may make the caller wait for.
    type Responding;

    /// What `finish` may make the caller wait for.
    type Finishing;

    /// Called when the request is ready, before the handler runs.
    fn start(&self, req: &mut HttpRequest<S>) -> Result<Started<Self::Starting>, Error>;

    /// Called with the response, before it goes out.
    fn response(&self, req: &mut HttpRequest<S>, resp: HttpResponse) -> Result<
        Response<Self::Responding>,
        Error,
    >;

    /// Called when the response has gone out.
    fn finish(&self, req: &mut HttpRequest<S>, resp: &HttpResponse) -> Finished<Self::Finishing>;
}

} // verus!
