//! Predicates on requests, by which the routes of a resource are chosen.

use vstd::prelude::*;
use crate::header::{has_header, HeaderMap};
use crate::httprequest::HttpRequest;
use crate::param::{lookup, ParamView};
use crate::text::str_eq;

verus! {

/// What a predicate looks at.
#[derive(Debug)]
pub enum Test {
    /// The method is this one.
    Method(String),
    /// There is a header with this name.
    HasHeader(String),
    /// The first header with this name has this value.
    Header(String, String),
}

/// A test on a request, or its negation.
#[derive(Debug)]
pub struct Predicate {
    pub test: Test,
    pub negated: bool,
}

/// Whether a request with the method `method` and the headers `headers`
/// passes `test`.
pub open spec fn passes(test: Test, method: Seq<char>, headers: Seq<ParamView>) -> bool {
    match test {
        Test::Method(m) => m@ == method,
        Test::HasHeader(name) => has_header(headers, name@),
        Test::Header(name, value) => lookup(headers, name@) == Some(value@),
    }
}

/// Whether a request with the method `method` and the headers `headers`
/// meets `pred`.
pub open spec fn holds(pred: Predicate, method: Seq<char>, headers: Seq<ParamView>) -> bool {
    passes(pred.test, method, headers) != pred.negated
}

/// Whether a request with the method `method` and the headers `headers`
/// meets every predicate of `preds`.
pub open spec fn all_hold(preds: Seq<Predicate>, method: Seq<char>, headers: Seq<ParamView>) -> bool {
    forall|i: int| 0 <= i < preds.len() ==> holds(#[trigger] preds[i], method, headers)
}

impl Predicate {
    /// The request has the method `method`.
    pub fn method(method: &str) -> (r: Predicate)
        ensures
            r.test matches Test::Method(m) && m@ == method@,
            !r.negated,
    {
        Predicate { test: Test::Method(method.to_owned()), negated: false }
    }

    /// The request has a header named `name`.
    pub fn has_header(name: &str) -> (r: Predicate)
        ensures
            r.test matches Test::HasHeader(n) && n@ == name@,
            !r.negated,
    {
        Predicate { test: Test::HasHeader(name.to_owned()), negated: false }
    }

    /// The first header of the request named `name` has the value `value`.
    pub fn header(name: &str, value: &str) -> (r: Predicate)
        ensures
            r.test matches Test::Header(n, v) && n@ == name@ && v@ == value@,
            !r.negated,
    {
        Predicate { test: Test::Header(name.to_owned(), value.to_owned()), negated: false }
    }

    /// The opposite of this predicate.
    pub fn not(self) -> (r: Predicate)
        ensures
            r.test == self.test,
            r.negated == !self.negated,
    {
        Predicate { test: self.test, negated: !self.negated }
    }

    /// Whether `req` meets the predicate.
    pub fn check<S>(&self, req: &HttpRequest<S>) -> (r: bool)
        ensures
            r == holds(*self, req.method@, req.headers@),
    {
        let passed = match &self.test {
            Test::Method(m) => str_eq(m.as_str(), req.method.as_str()),
            Test::HasHeader(name) => req.headers.contains_key(name.as_str()),
            Test::Header(name, value) => match req.headers.get(name.as_str()) {
                Some(found) => str_eq(found, value.as_str()),
                None => false,
            },
        };
        passed != self.negated
    }
}

} // verus!
