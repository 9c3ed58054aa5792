//! Request parsing: whole in-memory messages and split head/body parsing.

use verglas::http::request::Request;
use verglas::http::Method;

#[test]
fn http_parse_request() {
    let request = Request::parse("GET / HTTP/1.1").unwrap();

    assert_eq!(request.method, Method::Get);
    assert_eq!(request.uri.path, "/".to_string());

    let request = Request::parse("POST /login HTTP/1.1").unwrap();

    assert_eq!(request.method, Method::Post);
    assert_eq!(request.uri.path, "/login".to_string());

    let request = Request::parse("");
    assert!(request.is_err());

    let request = Request::parse("POSt / HTTP/1.2");
    assert!(request.is_err());
}

#[test]
fn request_parse_request() {
    let request = Request::parse("GET / HTTP/1.1\r\n\r\n").unwrap();

    assert_eq!(request.method, Method::Get);
    assert_eq!(request.uri.path, "/".to_string());
    assert_eq!(request.uri.attributes, vec![]);
    assert!(request.body.is_none());

    let request = Request::parse("POST /login?name=foo&password=bar HTTP/1.1").unwrap();

    assert_eq!(request.method, Method::Post);
    assert_eq!(request.uri.path, "/login".to_string());
    assert_eq!(
        request.uri.attributes,
        vec![
            ("name".to_string(), "foo".to_string()),
            ("password".to_string(), "bar".to_string())
        ]
    );

    let request = Request::parse("");
    assert!(request.is_err());

    let request = Request::parse("POSt / HTTP/1.2");
    assert!(request.is_err());
}

#[test]
fn parse_request_line_errors() {
    assert_eq!(Request::parse("").unwrap_err(), "Empty request");
    assert_eq!(Request::parse("   ").unwrap_err(), "No method found");
    assert_eq!(Request::parse("GET").unwrap_err(), "No uri found");
    assert_eq!(Request::parse("GET /").unwrap_err(), "No http version found");
    assert_eq!(Request::parse("BREW / HTTP/1.1").unwrap_err(), "Invalid method");
    assert_eq!(Request::parse("GET / HTTP/2.0").unwrap_err(), "Invalid version");
}

#[test]
fn parse_headers_last_one_wins_and_trims() {
    let request =
        Request::parse("GET / HTTP/1.1\r\nHost:  a.example \r\nHost: b.example\r\n\r\n").unwrap();
    assert!(request.contains_header("Host"));
    assert_eq!(request.get_header("Host"), Some(&"b.example".to_string()));
    assert_eq!(request.get_header("host"), None);
    assert_eq!(request.get_header("Missing"), None);
}

#[test]
fn parse_header_line_without_colon_is_dropped() {
    let request = Request::parse("GET / HTTP/1.1\r\nnocolonhere\r\nA: 1\r\n\r\n").unwrap();
    assert!(!request.contains_header("nocolonhere"));
    assert_eq!(request.get_header("A"), Some(&"1".to_string()));
}

#[test]
fn parse_treats_unicode_whitespace_as_whitespace() {
    // U+00A0 separates request-line tokens and is trimmed from header
    // values, exactly as char::is_whitespace sees it.
    let request = Request::parse("GET\u{a0}/ HTTP/1.1\r\nA:\u{a0}1\u{a0}\r\n\r\n").unwrap();
    assert_eq!(request.method, Method::Get);
    assert_eq!(request.uri.path, "/".to_string());
    assert_eq!(request.get_header("A"), Some(&"1".to_string()));
}

#[test]
fn parse_request_cookies() {
    let request =
        Request::parse("GET / HTTP/1.1\r\nCookie: name=value; other=two; junk\r\n\r\n").unwrap();
    assert_eq!(request.cookies.len(), 2);
    assert_eq!(request.cookies[0].key, "name".to_string());
    assert_eq!(request.cookies[0].value, "value".to_string());
    assert_eq!(request.cookies[1].key, "other".to_string());
    assert_eq!(request.cookies[1].value, "two".to_string());

    let cookie = request.get_cookie("other").unwrap();
    assert_eq!(cookie.value, "two".to_string());
    assert!(request.get_cookie("junk").is_none());
}

#[test]
fn parse_body_with_content_length() {
    let request = Request::parse("POST / HTTP/1.1\r\nContent-Length: 5\r\n\r\nhello").unwrap();
    assert_eq!(request.body, Some("hello".to_string()));
}

#[test]
fn parse_content_length_zero_gives_no_body() {
    let request = Request::parse("GET / HTTP/1.1\r\nContent-Length: 0\r\n\r\n").unwrap();
    assert!(request.body.is_none());
}

#[test]
fn parse_content_length_errors() {
    assert_eq!(
        Request::parse("GET / HTTP/1.1\r\nContent-Length: abc\r\n\r\n").unwrap_err(),
        "Invalid content length"
    );
    assert_eq!(
        Request::parse("GET / HTTP/1.1\r\nContent-Length: 99999\r\n\r\nshort").unwrap_err(),
        "Truncated body"
    );
}

#[test]
fn parse_body_counts_bytes_not_characters() {
    // "\u{e9}" is one character but two bytes; the body is the last
    // Content-Length BYTES of the buffer.
    let request = Request::parse("POST / HTTP/1.1\r\nContent-Length: 3\r\n\r\na\u{e9}").unwrap();
    assert_eq!(request.body, Some("a\u{e9}".to_string()));

    let request = Request::parse("POST / HTTP/1.1\r\nContent-Length: 2\r\n\r\na\u{e9}").unwrap();
    assert_eq!(request.body, Some("\u{e9}".to_string()));

    // A tail of one byte would split the two-byte character.
    assert_eq!(
        Request::parse("POST / HTTP/1.1\r\nContent-Length: 1\r\n\r\na\u{e9}").unwrap_err(),
        "Invalid encoding"
    );
}

#[test]
fn parse_head_reports_owed_body_bytes() {
    let lines = vec![
        "POST /submit HTTP/1.1".to_string(),
        "Content-Length: 11".to_string(),
    ];
    let (request, owed) = Request::parse_head(&lines).unwrap();
    assert_eq!(owed, 11);
    assert!(request.body.is_none());
    assert_eq!(request.method, Method::Post);
    assert_eq!(request.uri.path, "/submit".to_string());

    let lines = vec!["GET / HTTP/1.1".to_string()];
    let (request, owed) = Request::parse_head(&lines).unwrap();
    assert_eq!(owed, 0);
    assert!(request.body.is_none());

    let empty: Vec<String> = Vec::new();
    assert_eq!(Request::parse_head(&empty).unwrap_err(), "Empty request");
}
