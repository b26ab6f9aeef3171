//! The response as the middlewares see it.

use vstd::prelude::*;
use crate::header::HeaderMap;

verus! {

/// What kind of body a response has.
#[derive(Debug)]
pub enum Body {
    /// None.
    Empty,
    /// Bytes that are all there.
    Binary(Vec<u8>),
    /// A stream of chunks.
    Streaming,
    /// An actor context that yields chunks.
    Actor,
}

/// A response: its status, its headers and its body.
#[derive(Debug)]
pub struct HttpResponse {
    pub status: u16,
    pub headers: HeaderMap,
    pub body: Body,
}

impl HttpResponse {
    /// A response with the status `status`, without headers or body.
    pub fn new(status: u16) -> (r: HttpResponse)
        ensures
            r.status == status,
            r.headers@.len() == 0,
            r.body is Empty,
    {
        HttpResponse { status, headers: HeaderMap::new(), body: Body::Empty }
    }

    /// 200.
    pub fn ok() -> (r: HttpResponse)
        ensures
            r.status == 200,
            r.headers@.len() == 0,
    {
        HttpResponse::new(200)
    }

    /// 404.
    pub fn not_found() -> (r: HttpResponse)
        ensures
            r.status == 404,
            r.headers@.len() == 0,
    {
        HttpResponse::new(404)
    }

    /// 405.
    pub fn method_not_allowed() -> (r: HttpResponse)
        ensures
            r.status == 405,
            r.headers@.len() == 0,
    {
        HttpResponse::new(405)
    }

    /// The status.
    pub fn status(&self) -> (r: u16)
        ensures
            r == self.status,
    {
        self.status
    }

    /// The headers.
    pub fn headers(&self) -> (r: &HeaderMap)
        ensures
            *r == self.headers,
    {
        &self.headers
    }

    /// The headers, to be changed.
    pub fn headers_mut(&mut self) -> (r: &mut HeaderMap)
        ensures
            *r == old(self).headers,
            *final(self) == (HttpResponse { headers: *final(r), ..*old(self) }),
    {
        &mut self.headers
    }
}

} // verus!
