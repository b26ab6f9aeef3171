//! The handlers of one resource: routes that are chosen by predicates on
//! the request.

use vstd::prelude::*;
use crate::httprequest::HttpRequest;
use crate::param::ParamView;
use crate::pred::{all_hold, Predicate};

verus! {

/// A route: the predicates that a request has to meet, and the handler
/// that then takes it.
#[derive(Debug)]
pub struct Route<H> {
    pub preds: Vec<Predicate>,
    pub handler: Option<H>,
}

impl<H> Route<H> {
    /// A route without predicates or handler.
    pub fn new() -> (r: Route<H>)
        ensures
            r.preds@.len() == 0,
            r.handler is None,
    {
        Route { preds: Vec::new(), handler: None }
    }

    /// Adds a predicate.
    pub fn filter(&mut self, pred: Predicate) -> (r: &mut Self)
        ensures
            *r == (Route { preds: r.preds, ..*old(self) }),
            r.preds@ == old(self).preds@.push(pred),
            *final(self) == *final(r),
    {
        self.preds.push(pred);
        self
    }

    /// Sets the handler.
    pub fn h(&mut self, handler: H)
        ensures
            *final(self) == (Route { handler: Some(handler), ..*old(self) }),
    {
        self.handler = Some(handler);
    }

    /// Sets the handler.
    pub fn f(&mut self, handler: H)
        ensures
            *final(self) == (Route { handler: Some(handler), ..*old(self) }),
    {
        self.handler = Some(handler);
    }

    /// Whether `req` meets all the predicates of the route.
    pub fn check<S>(&self, req: &HttpRequest<S>) -> (r: bool)
        ensures
            r == all_hold(self.preds@, req.method@, req.headers@),
    {
        let mut i: usize = 0;
        while i < self.preds.len()
            invariant
                i <= self.preds@.len(),
                forall|j: int|
                    0 <= j < i ==> crate::pred::holds(
                        #[trigger] self.preds@[j],
                        req.method@,
                        req.headers@,
                    ),
            decreases self.preds@.len() - i,
        {
            if !self.preds[i].check(req) {
                return false;
            }
            i += 1;
        }
        true
    }
}

/// The place of the first route of `routes` whose predicates a request
/// with the method `method` and the headers `headers` meets.
pub open spec fn chosen<H>(routes: Seq<Route<H>>, method: Seq<char>, headers: Seq<ParamView>) -> Option<
    int,
>
    decreases routes.len(),
{
    if routes.len() == 0 {
        None
    } else {
        match chosen(routes.drop_last(), method, headers) {
            Some(i) => Some(i),
            None => if all_hold(routes.last().preds@, method, headers) {
                Some(routes.len() - 1)
            } else {
                None
            },
        }
    }
}

/// The route that is chosen is one whose predicates the request meets,
/// and no route before it is one; and where none is chosen there is none.
pub proof fn lemma_chosen<H>(routes: Seq<Route<H>>, method: Seq<char>, headers: Seq<ParamView>)
    ensures
        match chosen(routes, method, headers) {
            Some(i) => 0 <= i < routes.len() && all_hold(routes[i].preds@, method, headers)
                && forall|j: int|
                0 <= j < i ==> !all_hold((#[trigger] routes[j]).preds@, method, headers),
            None => forall|j: int|
                0 <= j < routes.len() ==> !all_hold((#[trigger] routes[j]).preds@, method, headers),
        },
    decreases routes.len(),
{
    if routes.len() > 0 {
        lemma_chosen(routes.drop_last(), method, headers);
        match chosen(routes.drop_last(), method, headers) {
            Some(i) => {
                assert(routes.drop_last()[i] == routes[i]);
                assert forall|j: int| 0 <= j < i implies !all_hold(
                    (#[trigger] routes[j]).preds@,
                    method,
                    headers,
                ) by {
                    assert(routes.drop_last()[j] == routes[j]);
                }
            },
            None => {
                assert forall|j: int| 0 <= j < routes.len() - 1 implies !all_hold(
                    (#[trigger] routes[j]).preds@,
                    method,
                    headers,
                ) by {
                    assert(routes.drop_last()[j] == routes[j]);
                }
            },
        }
    }
}

/// The handlers of one resource: its name, and its routes in the order in
/// which they were added.
#[derive(Debug)]
pub struct ResourceHandler<H> {
    pub name: String,
    pub routes: Vec<Route<H>>,
}

impl<H> Default for ResourceHandler<H> {
    /// A resource without name or routes.
    fn default() -> (r: ResourceHandler<H>)
        ensures
            r.name@.len() == 0,
            r.routes@.len() == 0,
    {
        ResourceHandler { name: String::new(), routes: Vec::new() }
    }
}

impl<H> ResourceHandler<H> {
    /// A resource without routes: whatever the request, it is not found.
    pub fn default_not_found() -> (r: ResourceHandler<H>)
        ensures
            r.name@.len() == 0,
            r.routes@.len() == 0,
    {
        ResourceHandler { name: String::new(), routes: Vec::new() }
    }

    /// Sets the name of the resource.
    pub fn name(&mut self, name: &str)
        ensures
            final(self).name@ == name@,
            final(self).routes == old(self).routes,
    {
        self.name = name.to_owned();
    }

    /// The name of the resource.
    pub fn get_name(&self) -> (r: &str)
        ensures
            r@ == self.name@,
    {
        self.name.as_str()
    }

    /// Adds a route.
    pub fn route(&mut self, route: Route<H>)
        ensures
            final(self).name == old(self).name,
            final(self).routes@ == old(self).routes@.push(route),
    {
        self.routes.push(route);
    }

    /// Adds a route for the requests with the method `method`.
    pub fn method(&mut self, method: &str, handler: H)
        ensures
            final(self).name == old(self).name,
            final(self).routes@.len() == old(self).routes@.len() + 1,
            final(self).routes@.drop_last() == old(self).routes@,
            final(self).routes@.last().handler == Some(handler),
            final(self).routes@.last().preds@.len() == 1,
            final(self).routes@.last().preds@[0].test matches crate::pred::Test::Method(m) && m@
                == method@,
            !final(self).routes@.last().preds@[0].negated,
    {
        let mut route = Route::new();
        let _ = route.filter(Predicate::method(method));
        route.h(handler);
        let ghost before = self.routes@;
        self.routes.push(route);
        assert(self.routes@.drop_last() =~= before);
    }

    /// Adds a route that takes every request.
    pub fn f(&mut self, handler: H)
        ensures
            final(self).name == old(self).name,
            final(self).routes@.len() == old(self).routes@.len() + 1,
            final(self).routes@.drop_last() == old(self).routes@,
            final(self).routes@.last().handler == Some(handler),
            final(self).routes@.last().preds@.len() == 0,
    {
        let mut route = Route::new();
        route.h(handler);
        let ghost before = self.routes@;
        self.routes.push(route);
        assert(self.routes@.drop_last() =~= before);
    }

    /// Adds a route that takes every request.
    pub fn h(&mut self, handler: H)
        ensures
            final(self).name == old(self).name,
            final(self).routes@.len() == old(self).routes@.len() + 1,
            final(self).routes@.drop_last() == old(self).routes@,
            final(self).routes@.last().handler == Some(handler),
            final(self).routes@.last().preds@.len() == 0,
    {
        self.f(handler)
    }

    /// The place of the route that takes `req`: the first, in the order
    /// in which the routes were added, whose predicates `req` meets.
    pub fn find<S>(&self, req: &HttpRequest<S>) -> (r: Option<usize>)
        ensures
            match r {
                Some(i) => chosen(self.routes@, req.method@, req.headers@) == Some(i as int) && i
                    < self.routes@.len(),
                None => chosen(self.routes@, req.method@, req.headers@) is None,
            },
    {
        let mut i: usize = 0;
        assert(self.routes@.take(0) =~= Seq::<Route<H>>::empty());
        while i < self.routes.len()
            invariant
                i <= self.routes@.len(),
                chosen(self.routes@.take(i as int), req.method@, req.headers@) is None,
            decreases self.routes@.len() - i,
        {
            proof {
                assert(self.routes@.take(i + 1).drop_last() =~= self.routes@.take(i as int));
                assert(self.routes@.take(i + 1).last() == self.routes@[i as int]);
            }
            if self.routes[i].check(req) {
                proof {
                    lemma_chosen_prefix(
                        self.routes@,
                        req.method@,
                        req.headers@,
                        i + 1,
                    );
                }
                return Some(i);
            }
            i += 1;
        }
        assert(self.routes@.take(self.routes@.len() as int) =~= self.routes@);
        None
    }
}

/// A route that is chosen among the first `upto` routes is chosen among
/// all.
pub proof fn lemma_chosen_prefix<H>(
    routes: Seq<Route<H>>,
    method: Seq<char>,
    headers: Seq<ParamView>,
    upto: int,
)
    requires
        0 <= upto <= routes.len(),
        chosen(routes.take(upto), method, headers) is Some,
    ensures
        chosen(routes, method, headers) == chosen(routes.take(upto), method, headers),
    decreases routes.len() - upto,
{
    if upto < routes.len() {
        assert(routes.take(upto + 1).drop_last() =~= routes.take(upto));
        lemma_chosen_prefix(routes, method, headers, upto + 1);
    } else {
        assert(routes.take(upto) =~= routes);
    }
}

} // verus!
