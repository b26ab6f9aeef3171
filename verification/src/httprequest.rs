//! The request as routing sees it.

use vstd::prelude::*;
use std::rc::Rc;
use crate::header::HeaderMap;
use crate::param::Params;
use crate::router::{Resource, Router};

verus! {

/// A request: its method and path, its headers, the parameters that
/// routing took out of the path, the place of the resource that routing
/// found, and the state and the router of the application that took it.
#[verifier::reject_recursive_types(S)]
pub struct HttpRequest<S> {
    pub method: String,
    pub path: String,
    pub headers: HeaderMap,
    pub params: Params,
    pub resource: Option<usize>,
    pub state: Option<Rc<S>>,
    pub router: Option<Router>,
}

impl<S> HttpRequest<S> {
    /// A request for `path` with the method `method`.
    pub fn new(method: &str, path: &str) -> (r: HttpRequest<S>)
        ensures
            r.method@ == method@,
            r.path@ == path@,
            r.headers@.len() == 0,
            r.params@.len() == 0,
            r.resource is None,
            r.state is None,
            r.router is None,
    {
        HttpRequest {
            method: method.to_owned(),
            path: path.to_owned(),
            headers: HeaderMap::new(),
            params: Params::new(),
            resource: None,
            state: None,
            router: None,
        }
    }

    /// The path of the request.
    pub fn path(&self) -> (r: &str)
        ensures
            r@ == self.path@,
    {
        self.path.as_str()
    }

    /// The method of the request.
    pub fn method(&self) -> (r: &str)
        ensures
            r@ == self.method@,
    {
        self.method.as_str()
    }

    /// The headers of the request.
    pub fn headers(&self) -> (r: &HeaderMap)
        ensures
            *r == self.headers,
    {
        &self.headers
    }

    /// The headers, to be changed.
    pub fn headers_mut(&mut self) -> (r: &mut HeaderMap)
        ensures
            *r == old(self).headers,
            *final(self) == (HttpRequest { headers: *final(r), ..*old(self) }),
    {
        &mut self.headers
    }

    /// The parameters that routing took out of the path.
    pub fn match_info(&self) -> (r: &Params)
        ensures
            *r == self.params,
    {
        &self.params
    }

    /// The parameters, to be changed.
    pub fn match_info_mut(&mut self) -> (r: &mut Params)
        ensures
            *r == old(self).params,
            *final(self) == (HttpRequest { params: *final(r), ..*old(self) }),
    {
        &mut self.params
    }

    /// Takes note of the place of the resource that routing found.
    pub fn set_resource(&mut self, idx: usize)
        ensures
            *final(self) == (HttpRequest { resource: Some(idx), ..*old(self) }),
    {
        self.resource = Some(idx);
    }

    /// The resource that routing found for the request, if the request is
    /// bound to a router and the place that was recorded is one of its
    /// patterns.
    pub fn resource(&self) -> (r: Option<&Resource>)
        requires
            self.router matches Some(router) ==> router.wf(),
        ensures
            match (self.router, self.resource) {
                (Some(router), Some(idx)) => if idx < router.patterns().len() {
                    r == Some(&router.patterns()[idx as int])
                } else {
                    r is None
                },
                _ => r is None,
            },
    {
        match (&self.router, self.resource) {
            (Some(router), Some(idx)) => {
                if idx < router.0.patterns.len() {
                    Some(router.get_resource(idx))
                } else {
                    None
                }
            },
            _ => None,
        }
    }

    /// Binds the state and the router of an application to the request.
    pub fn with_state<T>(self, state: Rc<T>, router: Router) -> (r: HttpRequest<T>)
        ensures
            r.method == self.method,
            r.path == self.path,
            r.headers == self.headers,
            r.params == self.params,
            r.resource == self.resource,
            r.state == Some(state),
            r.router == Some(router),
    {
        HttpRequest {
            method: self.method,
            path: self.path,
            headers: self.headers,
            params: self.params,
            resource: self.resource,
            state: Some(state),
            router: Some(router),
        }
    }
}

impl Default for HttpRequest<()> {
    /// A `GET` request for `/`.
    fn default() -> (r: HttpRequest<()>)
        ensures
            r.method@ == "GET"@,
            r.path@ == "/"@,
            r.resource is None,
            r.router is None,
    {
        HttpRequest::new("GET", "/")
    }
}

} // verus!
