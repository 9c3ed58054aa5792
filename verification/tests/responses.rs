//! Response building and serialization, and the cookie wire encoding.

use verglas::http::cookie::CookieBuilder;
use verglas::http::response::ResponseBuilder;

#[test]
fn test_empty() {
    let cookie = CookieBuilder::new()
        .with_key("testkey")
        .with_value("testvalue")
        .build();

    assert_eq!(cookie.serialize(), "Set-Cookie: testkey=testvalue\r\n");
}

#[test]
fn test_empty_responses() {
    let response = ResponseBuilder::new().empty().build();
    assert_eq!(
        response.serialize(),
        "HTTP/1.1 200 OK\r\nContent-Length: 0\r\n\r\n"
    );

    let response = ResponseBuilder::new().not_found().build();
    assert_eq!(
        response.serialize(),
        "HTTP/1.1 404 Not Found\r\nContent-Length: 0\r\n\r\n"
    );

    let response = ResponseBuilder::new().internal_server_error().build();
    assert_eq!(
        response.serialize(),
        "HTTP/1.1 500 Internal Server Error\r\nContent-Length: 0\r\n\r\n"
    );
}

#[test]
fn test_cookies() {
    let cookie = CookieBuilder::new()
        .with_key("key")
        .with_value("value")
        .build();

    let response = ResponseBuilder::new()
        .empty()
        .with_cookies(vec![cookie])
        .build();

    let expected = "HTTP/1.1 200 OK\r\nContent-Length: 0\r\nSet-Cookie: key=value\r\n\r\n";

    assert_eq!(response.serialize(), expected);
}

#[test]
fn serialize_with_body_counts_length() {
    let response = ResponseBuilder::new()
        .with_status_code(200)
        .with_body("hello")
        .build();
    assert_eq!(
        response.serialize(),
        "HTTP/1.1 200 OK\r\nContent-Length: 5\r\n\r\nhello"
    );
}

#[test]
fn serialize_counts_body_bytes_not_characters() {
    // "\u{e9}" is one character but two bytes on the wire.
    let response = ResponseBuilder::new()
        .with_status_code(200)
        .with_body("\u{e9}")
        .build();
    assert_eq!(
        response.serialize(),
        "HTTP/1.1 200 OK\r\nContent-Length: 2\r\n\r\n\u{e9}"
    );
}

#[test]
fn serialize_unknown_status_uses_error_reason() {
    let response = ResponseBuilder::new().with_status_code(201).build();
    assert_eq!(
        response.serialize(),
        "HTTP/1.1 201 Internal Server Error\r\nContent-Length: 0\r\n\r\n"
    );
}

#[test]
fn cookie_attribute_clauses_in_wire_order() {
    let cookie = CookieBuilder::new()
        .with_key("id")
        .with_value("7")
        .with_secure(true)
        .with_http_only(true)
        .with_domain("example.test")
        .with_path("/app")
        .with_expires("Thu, 01 Jan 1970 00:00:00 GMT")
        .with_max_age("3600")
        .with_same_site("Strict")
        .build();

    assert_eq!(
        cookie.serialize(),
        "Set-Cookie: id=7; Domain=example.test; Path=/app; \
         Expires=Thu, 01 Jan 1970 00:00:00 GMT; Max-Age=3600; \
         SameSite=Strict; Secure; HttpOnly\r\n"
    );
}

#[test]
fn add_cookie_first_write_wins() {
    let first = CookieBuilder::new().with_key("k").with_value("one").build();
    let second = CookieBuilder::new().with_key("k").with_value("two").build();
    let other = CookieBuilder::new().with_key("o").with_value("x").build();

    let response = ResponseBuilder::new()
        .empty()
        .add_cookie(first)
        .add_cookie(second)
        .add_cookie(other)
        .build();

    assert_eq!(
        response.serialize(),
        "HTTP/1.1 200 OK\r\nContent-Length: 0\r\nSet-Cookie: k=one\r\nSet-Cookie: o=x\r\n\r\n"
    );
}
