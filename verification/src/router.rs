//! Routing: an ordered table of (path, method, handler) bindings,
//! dispatched by exact match, the first match winning, with a 404
//! response when nothing matches.

use vstd::prelude::*;

use crate::http::request::Request;
use crate::http::response::{Response, ResponseBuilder, ResponseView};
use crate::http::Method;
use crate::text::str_eq;

verus! {

/// What answers a request.  Handlers come from outside the engine; the
/// engine promises nothing about what they return, only where dispatch
/// sends each request.
pub trait Handler {
    /// Answers one request.
    fn handle(&self, request: &Request) -> Response;
}

/// One route: an exact path, a method, and the handler that answers
/// requests matching both.
pub struct Route<H> {
    pub path: String,
    pub method: Method,
    pub handler: H,
}

/// An ordered, read-only route table.
pub struct Router<H> {
    pub routes: Vec<Route<H>>,
}

/// A builder that collects routes in registration order, duplicates and
/// all: when two routes bind the same path and method, the earlier one
/// wins at dispatch.
pub struct RouterBuilder<H> {
    pub routes: Vec<Route<H>>,
}

/// Whether a route answers a request: its path equals the request's path,
/// character for character, and its method equals the request's method.
/// No normalization, no patterns.
pub open spec fn route_matches<H>(r: Route<H>, req: Request) -> bool {
    r.path@ == req.uri.path@ && r.method == req.method
}

/// The position of the first route that answers the request, if any.
pub open spec fn first_match<H>(routes: Seq<Route<H>>, req: Request) -> Option<int> {
    if exists|i: int| 0 <= i < routes.len() && route_matches(routes[i], req) {
        Some(
            choose|i: int|
                0 <= i < routes.len() && route_matches(routes[i], req) && forall|j: int|
                    0 <= j < i ==> !route_matches(routes[j], req),
        )
    } else {
        None
    }
}

/// The view of the answer to an unrouted request: 404, no body, no
/// cookies.
pub open spec fn not_found_view() -> ResponseView {
    ResponseView { status_code: 404, body: None, cookies: Seq::empty() }
}

impl<H> RouterBuilder<H> {
    /// A builder with no routes yet.
    pub fn new() -> (r: RouterBuilder<H>)
        ensures
            r.routes@.len() == 0,
    {
        RouterBuilder { routes: Vec::new() }
    }

    /// Appends one route, keeping registration order.
    pub fn with_route(self, route: Route<H>) -> (r: RouterBuilder<H>)
        ensures
            r.routes@ == self.routes@.push(route),
    {
        let mut routes = self.routes;
        routes.push(route);
        RouterBuilder { routes }
    }

    /// Freezes the collected routes into a router.
    pub fn build(self) -> (r: Router<H>)
        ensures
            r.routes@ == self.routes@,
    {
        Router { routes: self.routes }
    }
}

impl<H> Router<H> {
    /// The first route whose path and method both match the request, by a
    /// linear scan in registration order; none when no route matches.
    pub fn find_route<'a>(&'a self, request: &Request) -> (r: Option<&'a Route<H>>)
        ensures
            match r {
                Some(route) => match first_match(self.routes@, *request) {
                    Some(i) => *route == self.routes@[i],
                    None => false,
                },
                None => first_match(self.routes@, *request) is None,
            },
    {
        let ghost routes = self.routes@;
        let mut i: usize = 0;
        while i < self.routes.len()
            invariant
                i <= self.routes.len(),
                routes == self.routes@,
                forall|j: int| 0 <= j < i ==> !route_matches(routes[j], *request),
            decreases self.routes.len() - i,
        {
            if str_eq(self.routes[i].path.as_str(), request.uri.path.as_str()) && self.routes[i].method == request.method {
                proof {
                    lemma_first_match_at(routes, *request, i as int);
                }
                return Some(&self.routes[i]);
            }
            i += 1;
        }
        proof {
            lemma_no_match(routes, *request);
        }
        None
    }

    /// Answers a request: the first matching route's handler is invoked
    /// and its answer returned; when no route matches, the answer is a
    /// 404 response with an empty body.  What a handler returns is the
    /// handler's business, not the router's.
    pub fn dispatch(&self, request: &Request) -> (r: Response) where H: Handler
        ensures
            first_match(self.routes@, *request) is None ==> r@ == not_found_view(),
    {
        match self.find_route(request) {
            Some(route) => route.handler.handle(request),
            None => {
                let r = ResponseBuilder::new().not_found().build();
                proof {
                    assert(r@.cookies =~= not_found_view().cookies);
                    assert(r@ == not_found_view());
                }
                r
            },
        }
    }
}

/// When the routes before `i` all pass and the route at `i` matches, `i`
/// is the first match.
pub proof fn lemma_first_match_at<H>(routes: Seq<Route<H>>, req: Request, i: int)
    requires
        0 <= i < routes.len(),
        route_matches(routes[i], req),
        forall|j: int| 0 <= j < i ==> !route_matches(routes[j], req),
    ensures
        first_match(routes, req) == Some(i),
{
    assert(exists|k: int|
        0 <= k < routes.len() && route_matches(routes[k], req) && forall|j: int|
            0 <= j < k ==> !route_matches(routes[j], req)) by {
        assert(0 <= i < routes.len() && route_matches(routes[i], req) && forall|j: int|
            0 <= j < i ==> !route_matches(routes[j], req));
    }
    let c = choose|k: int|
        0 <= k < routes.len() && route_matches(routes[k], req) && forall|j: int|
            0 <= j < k ==> !route_matches(routes[j], req);
    if c < i {
        assert(!route_matches(routes[c], req));
    }
    if c > i {
        assert(!route_matches(routes[i], req));
    }
}

/// When no route matches, there is no first match.
pub proof fn lemma_no_match<H>(routes: Seq<Route<H>>, req: Request)
    requires
        forall|j: int| 0 <= j < routes.len() ==> !route_matches(routes[j], req),
    ensures
        first_match(routes, req) is None,
{
}

} // verus!
