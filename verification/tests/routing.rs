//! Dispatch and the connection-cycle decisions.

use verglas::conn::{connection_close_requested, respond};
use verglas::http::request::Request;
use verglas::http::response::{Response, ResponseBuilder};
use verglas::http::Method;
use verglas::router::{Handler, Route, Router, RouterBuilder};

enum TestHandler {
    Index,
    Login,
}

impl Handler for TestHandler {
    fn handle(&self, _request: &Request) -> Response {
        match self {
            TestHandler::Index => ResponseBuilder::new()
                .with_status_code(200)
                .with_body("index")
                .build(),
            TestHandler::Login => ResponseBuilder::new()
                .with_status_code(200)
                .with_body("login")
                .build(),
        }
    }
}

fn test_router() -> Router<TestHandler> {
    RouterBuilder::new()
        .with_route(Route {
            path: "/".to_string(),
            method: Method::Get,
            handler: TestHandler::Index,
        })
        .with_route(Route {
            path: "/".to_string(),
            method: Method::Post,
            handler: TestHandler::Login,
        })
        .build()
}

#[test]
fn dispatch_picks_first_matching_route() {
    let router = test_router();

    let get = Request::parse("GET / HTTP/1.1\r\n\r\n").unwrap();
    let response = router.dispatch(&get);
    assert_eq!(
        response.serialize(),
        "HTTP/1.1 200 OK\r\nContent-Length: 5\r\n\r\nindex"
    );

    let post = Request::parse("POST / HTTP/1.1\r\n\r\n").unwrap();
    let response = router.dispatch(&post);
    assert_eq!(
        response.serialize(),
        "HTTP/1.1 200 OK\r\nContent-Length: 5\r\n\r\nlogin"
    );
}

#[test]
fn dispatch_unrouted_path_yields_404_with_empty_body() {
    let router = test_router();

    for raw in [
        "GET /missing HTTP/1.1\r\n\r\n",
        "POST /missing HTTP/1.1\r\n\r\n",
        "DELETE /missing HTTP/1.1\r\n\r\n",
    ] {
        let request = Request::parse(raw).unwrap();
        let response = router.dispatch(&request);
        assert_eq!(
            response.serialize(),
            "HTTP/1.1 404 Not Found\r\nContent-Length: 0\r\n\r\n"
        );
    }
}

#[test]
fn dispatch_earlier_duplicate_route_wins() {
    let router = RouterBuilder::new()
        .with_route(Route {
            path: "/".to_string(),
            method: Method::Get,
            handler: TestHandler::Index,
        })
        .with_route(Route {
            path: "/".to_string(),
            method: Method::Get,
            handler: TestHandler::Login,
        })
        .build();

    let get = Request::parse("GET / HTTP/1.1\r\n\r\n").unwrap();
    let response = router.dispatch(&get);
    assert_eq!(
        response.serialize(),
        "HTTP/1.1 200 OK\r\nContent-Length: 5\r\n\r\nindex"
    );
}

#[test]
fn connection_close_header_stops_the_cycle() {
    let close = Request::parse("GET / HTTP/1.1\r\nConnection: close\r\n\r\n").unwrap();
    assert!(connection_close_requested(&close));

    let keep = Request::parse("GET / HTTP/1.1\r\n\r\n").unwrap();
    assert!(!connection_close_requested(&keep));

    let other = Request::parse("GET / HTTP/1.1\r\nConnection: keep-alive\r\n\r\n").unwrap();
    assert!(!connection_close_requested(&other));
}

#[test]
fn respond_keeps_or_closes_as_the_request_asks() {
    let router = test_router();

    let close = Request::parse("GET / HTTP/1.1\r\nConnection: close\r\n\r\n");
    let (response, done) = respond(&router, close);
    assert!(done);
    assert_eq!(
        response.serialize(),
        "HTTP/1.1 200 OK\r\nContent-Length: 5\r\n\r\nindex"
    );

    let keep = Request::parse("GET / HTTP/1.1\r\n\r\n");
    let (response, done) = respond(&router, keep);
    assert!(!done);
    assert_eq!(
        response.serialize(),
        "HTTP/1.1 200 OK\r\nContent-Length: 5\r\n\r\nindex"
    );
}

#[test]
fn respond_turns_parse_failure_into_500_and_stays_open() {
    let router = test_router();

    let (response, done) = respond(&router, Request::parse("POSt / HTTP/1.2"));
    assert!(!done);
    assert_eq!(
        response.serialize(),
        "HTTP/1.1 500 Internal Server Error\r\nContent-Length: 14\r\n\r\nInvalid method"
    );
}
