//! Wire-token parsing: methods, versions and URIs.

use verglas::http::{Method, Uri, Version};

#[test]
fn http_parse_method() {
    let method = Method::parse("GET").unwrap();
    assert_eq!(method, Method::Get);

    let method = Method::parse("POST").unwrap();
    assert_eq!(method, Method::Post);

    let method = Method::parse("PUT").unwrap();
    assert_eq!(method, Method::Put);

    let method = Method::parse("DELETE").unwrap();
    assert_eq!(method, Method::Delete);

    let method = Method::parse("INVALID");
    assert_eq!(method, Err("Invalid method"));
}

#[test]
fn types_parse_method() {
    let method = Method::parse("GET").unwrap();
    assert_eq!(method, Method::Get);

    let method = Method::parse("HEAD").unwrap();
    assert_eq!(method, Method::Head);

    let method = Method::parse("POST").unwrap();
    assert_eq!(method, Method::Post);

    let method = Method::parse("PUT").unwrap();
    assert_eq!(method, Method::Put);

    let method = Method::parse("DELETE").unwrap();
    assert_eq!(method, Method::Delete);

    let method = Method::parse("CONNECT").unwrap();
    assert_eq!(method, Method::Connect);

    let method = Method::parse("OPTIONS").unwrap();
    assert_eq!(method, Method::Options);

    let method = Method::parse("TRACE").unwrap();
    assert_eq!(method, Method::Trace);

    let method = Method::parse("INVALID");
    assert_eq!(method, Err("Invalid method"));
}

#[test]
fn parse_version_tokens() {
    assert!(matches!(Version::parse("HTTP/1.0"), Ok(Version::Http1_0)));
    assert!(matches!(Version::parse("HTTP/1.1"), Ok(Version::Http1_1)));
    assert_eq!(Version::parse("HTTP/1.2"), Err("Invalid version"));
    assert_eq!(Version::parse("http/1.1"), Err("Invalid version"));
}

#[test]
fn parse_uri_with_query() {
    let uri = Uri::parse("/login?name=foo&password=bar").unwrap();
    assert_eq!(uri.path, "/login".to_string());
    assert_eq!(
        uri.attributes,
        vec![
            ("name".to_string(), "foo".to_string()),
            ("password".to_string(), "bar".to_string())
        ]
    );
}

#[test]
fn parse_uri_without_query() {
    let uri = Uri::parse("/").unwrap();
    assert_eq!(uri.path, "/".to_string());
    assert_eq!(uri.attributes, vec![]);
}

#[test]
fn parse_uri_drops_pair_without_eq() {
    let uri = Uri::parse("/p?a=1&junk&b=2").unwrap();
    assert_eq!(uri.path, "/p".to_string());
    assert_eq!(
        uri.attributes,
        vec![
            ("a".to_string(), "1".to_string()),
            ("b".to_string(), "2".to_string())
        ]
    );
}

#[test]
fn parse_uri_keeps_duplicate_keys_and_first_eq_split() {
    let uri = Uri::parse("/p?a=1&a=2&b=x=y").unwrap();
    assert_eq!(
        uri.attributes,
        vec![
            ("a".to_string(), "1".to_string()),
            ("a".to_string(), "2".to_string()),
            ("b".to_string(), "x=y".to_string())
        ]
    );
}
