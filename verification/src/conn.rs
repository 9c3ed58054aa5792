//! The decisions of one connection cycle: what to answer a parse outcome
//! with, and whether the connection closes afterwards.  The caller owns
//! the stream; it reads one message, hands the parse outcome in, writes
//! the answer out, and closes or loops as the flag says.

use vstd::prelude::*;

use crate::http::request::{Request, RequestView};
use crate::http::response::{Response, ResponseBuilder, ResponseView};
use crate::router::{first_match, not_found_view, Handler, Router};
use crate::text::str_eq;

verus! {

/// Whether a request asks for its connection to close: a `Connection`
/// header whose value is exactly `close`.
pub open spec fn close_requested(rv: RequestView) -> bool {
    rv.headers.contains_key("Connection"@) && rv.headers["Connection"@] == "close"@
}

/// Whether this request's connection should close after its cycle,
/// exactly as `close_requested` states.
pub fn connection_close_requested(req: &Request) -> (r: bool)
    ensures
        r == close_requested(req@),
{
    match req.get_header("Connection") {
        Some(v) => str_eq(v.as_str(), "close"),
        None => false,
    }
}

/// Answers one parse outcome.  A parsed request is dispatched, and the
/// connection closes afterwards only when the request asked it to; a
/// parse failure earns a 500 response carrying the failure text, and the
/// connection stays open for the next message.
pub fn respond<H: Handler>(router: &Router<H>, parsed: Result<Request, &'static str>) -> (r: (
    Response,
    bool,
))
    ensures
        match parsed {
            Ok(req) => r.1 == close_requested(req@) && (first_match(router.routes@, req) is None
                ==> r.0@ == not_found_view()),
            Err(e) => r.1 == false && r.0@ == (ResponseView {
                status_code: 500,
                body: Some(e@),
                cookies: Seq::empty(),
            }),
        },
{
    match parsed {
        Ok(req) => {
            let close = connection_close_requested(&req);
            let response = router.dispatch(&req);
            (response, close)
        },
        Err(e) => {
            let response = ResponseBuilder::new().internal_server_error().with_body(e).build();
            proof {
                assert(response@.cookies =~= Seq::<crate::http::cookie::CookieView>::empty());
                assert(response@ == (ResponseView {
                    status_code: 500,
                    body: Some(e@),
                    cookies: Seq::empty(),
                }));
            }
            (response, false)
        },
    }
}

} // verus!
