//! Responses: a staged builder that demands a status code before a
//! response can be built, duplicate-free cookie addition, and the exact
//! wire serialization.

use vstd::prelude::*;
use vstd::string::{StrSliceExecFns, StringExecFns};

use vstd::utf8::encode_utf8;

use crate::http::cookie::{cookie_line, Cookie, CookieView};
use crate::text::{dec_str, push_dec, str_eq};

verus! {

/// A response: a status code, an optional body, and its cookies in
/// insertion order.
#[derive(Debug)]
pub struct Response {
    pub status_code: u16,
    pub body: Option<String>,
    pub cookies: Vec<Cookie>,
}

/// The mathematical content of a `Response`.
#[verifier::ext_equal]
pub struct ResponseView {
    pub status_code: u16,
    pub body: Option<Seq<char>>,
    pub cookies: Seq<CookieView>,
}

impl View for Response {
    type V = ResponseView;

    open spec fn view(&self) -> ResponseView {
        ResponseView {
            status_code: self.status_code,
            body: self.body.deep_view(),
            cookies: self.cookies.deep_view(),
        }
    }
}

/// The reason phrase of a status code.  The mapping is total: every code
/// other than 200 and 404 renders as the 500 phrase.
pub open spec fn reason_phrase(code: u16) -> Seq<char> {
    if code == 200 {
        "OK"@
    } else if code == 404 {
        "Not Found"@
    } else {
        "Internal Server Error"@
    }
}

/// The byte length a `Content-Length` header reports: the length of the
/// body's UTF-8 encoding, and zero when there is no body.
pub open spec fn body_len(body: Option<Seq<char>>) -> nat {
    match body {
        Some(b) => encode_utf8(b).len(),
        None => 0,
    }
}

/// The `Set-Cookie` lines of the cookies, in order; each line carries its
/// own terminator.
pub open spec fn cookie_lines(cs: Seq<CookieView>) -> Seq<char>
    decreases cs.len(),
{
    if cs.len() == 0 {
        Seq::empty()
    } else {
        cookie_lines(cs.drop_last()) + cookie_line(cs.last())
    }
}

/// The wire form of a response: the status line, the content length, the
/// cookie lines, a blank line, and then the body when one is present.
pub open spec fn response_wire(r: ResponseView) -> Seq<char> {
    "HTTP/1.1 "@ + dec_str(r.status_code as nat) + " "@ + reason_phrase(r.status_code) + "\r\n"@
        + "Content-Length: "@ + dec_str(body_len(r.body)) + "\r\n"@ + cookie_lines(r.cookies)
        + "\r\n"@ + (match r.body {
        Some(b) => b,
        None => Seq::<char>::empty(),
    })
}

impl Response {
    /// Serializes the response to its wire form, exactly as
    /// `response_wire` states.
    pub fn serialize(&self) -> (r: String)
        ensures
            r@ == response_wire(self@),
    {
        let mut out = String::new();
        out.append("HTTP/1.1 ");
        push_dec(&mut out, self.status_code as u64);
        out.append(" ");
        if self.status_code == 200 {
            out.append("OK");
        } else if self.status_code == 404 {
            out.append("Not Found");
        } else {
            out.append("Internal Server Error");
        }
        out.append("\r\n");
        out.append("Content-Length: ");
        let n: usize = match &self.body {
            Some(b) => b.as_str().as_bytes().len(),
            None => 0,
        };
        push_dec(&mut out, n as u64);
        out.append("\r\n");
        let ghost hdr = "HTTP/1.1 "@ + dec_str(self@.status_code as nat) + " "@ + reason_phrase(
            self@.status_code,
        ) + "\r\n"@ + "Content-Length: "@ + dec_str(body_len(self@.body)) + "\r\n"@;
        proof {
            assert(out@ =~= hdr);
        }
        let mut i: usize = 0;
        proof {
            assert(self@.cookies.take(0) =~= Seq::<CookieView>::empty());
            assert(out@ =~= hdr + cookie_lines(self@.cookies.take(0)));
        }
        while i < self.cookies.len()
            invariant
                i <= self.cookies.len(),
                self.cookies.deep_view() == self@.cookies,
                out@ == hdr + cookie_lines(self@.cookies.take(i as int)),
            decreases self.cookies.len() - i,
        {
            let line = self.cookies[i].serialize();
            out.append(line.as_str());
            proof {
                assert(self@.cookies.take(i + 1).drop_last() =~= self@.cookies.take(i as int));
                assert(self@.cookies.take(i + 1).last() == self@.cookies[i as int]);
                assert(self.cookies@[i as int].deep_view() == self@.cookies[i as int]);
                assert(out@ =~= hdr + cookie_lines(self@.cookies.take(i + 1)));
            }
            i += 1;
        }
        proof {
            assert(self@.cookies.take(self.cookies.len() as int) =~= self@.cookies);
        }
        out.append("\r\n");
        match &self.body {
            Some(b) => out.append(b.as_str()),
            None => {},
        }
        proof {
            assert(out@ =~= response_wire(self@));
        }
        out
    }
}

/// Whether some cookie in `cs` already carries the key `k`.
pub open spec fn has_cookie_key(cs: Seq<CookieView>, k: Seq<char>) -> bool {
    exists|i: int| 0 <= i < cs.len() && cs[i].key == k
}

/// What adding a cookie does: nothing when its key is already carried,
/// an append at the end otherwise.
pub open spec fn add_cookie_spec(cs: Seq<CookieView>, c: CookieView) -> Seq<CookieView> {
    if has_cookie_key(cs, c.key) {
        cs
    } else {
        cs.push(c)
    }
}

/// Whether no two cookies of `cs` share a key.
pub open spec fn unique_cookie_keys(cs: Seq<CookieView>) -> bool {
    forall|i: int, j: int| 0 <= i < j < cs.len() ==> cs[i].key != cs[j].key
}

/// The first write wins: adding a second cookie under the same key leaves
/// the cookies exactly as they were after the first.
pub proof fn lemma_add_cookie_first_write_wins(cs: Seq<CookieView>, c1: CookieView, c2: CookieView)
    requires
        c2.key == c1.key,
    ensures
        add_cookie_spec(add_cookie_spec(cs, c1), c2) == add_cookie_spec(cs, c1),
{
    if !has_cookie_key(cs, c1.key) {
        assert(cs.push(c1)[cs.len() as int].key == c2.key);
        assert(has_cookie_key(cs.push(c1), c2.key));
    }
}

/// Adding a cookie never creates a duplicate key: a response whose
/// cookies carry distinct keys keeps that invariant under `add_cookie`.
pub proof fn lemma_add_cookie_keeps_unique_keys(cs: Seq<CookieView>, c: CookieView)
    requires
        unique_cookie_keys(cs),
    ensures
        unique_cookie_keys(add_cookie_spec(cs, c)),
{
    if !has_cookie_key(cs, c.key) {
        let r = cs.push(c);
        assert forall|i: int, j: int| 0 <= i < j < r.len() implies r[i].key != r[j].key by {
            if j == cs.len() {
                assert(r[i] == cs[i]);
            }
        }
    }
}

/// Marker for a builder that has no status code yet.
#[derive(Clone)]
pub struct NoStatusCode;

/// Marker holding the status code a builder was given.
#[derive(Clone)]
pub struct StatusCode(pub u16);

/// A staged response builder: only a builder holding a status code can
/// build a response.
pub struct ResponseBuilder<TStatusCode> {
    pub status_code: TStatusCode,
    pub body: Option<String>,
    pub cookies: Vec<Cookie>,
}

impl ResponseBuilder<NoStatusCode> {
    /// A fresh builder: no status code, no body, no cookies.
    pub fn new() -> (r: Self)
        ensures
            r.body is None,
            r.cookies@.len() == 0,
    {
        ResponseBuilder { status_code: NoStatusCode, body: None, cookies: Vec::new() }
    }

    /// Supplies the status code, keeping body and cookies.
    pub fn with_status_code(self, status_code: u16) -> (r: ResponseBuilder<StatusCode>)
        ensures
            r.status_code.0 == status_code,
            r.body == self.body,
            r.cookies == self.cookies,
    {
        ResponseBuilder { status_code: StatusCode(status_code), body: self.body, cookies: self.cookies }
    }

    /// Stages a 200 response without a body, keeping the cookies.
    pub fn empty(self) -> (r: ResponseBuilder<StatusCode>)
        ensures
            r.status_code.0 == 200,
            r.body is None,
            r.cookies == self.cookies,
    {
        ResponseBuilder { status_code: StatusCode(200), body: None, cookies: self.cookies }
    }

    /// Stages a 404 response without a body, keeping the cookies.
    pub fn not_found(self) -> (r: ResponseBuilder<StatusCode>)
        ensures
            r.status_code.0 == 404,
            r.body is None,
            r.cookies == self.cookies,
    {
        ResponseBuilder { status_code: StatusCode(404), body: None, cookies: self.cookies }
    }

    /// Stages a 500 response, keeping body and cookies.
    pub fn internal_server_error(self) -> (r: ResponseBuilder<StatusCode>)
        ensures
            r.status_code.0 == 500,
            r.body == self.body,
            r.cookies == self.cookies,
    {
        ResponseBuilder { status_code: StatusCode(500), body: self.body, cookies: self.cookies }
    }
}

impl<TStatusCode> ResponseBuilder<TStatusCode> {
    /// Supplies the body, keeping everything else.
    pub fn with_body(self, body: &str) -> (r: ResponseBuilder<TStatusCode>)
        ensures
            r.body matches Some(b) && b@ == body@,
            r.status_code == self.status_code,
            r.cookies == self.cookies,
    {
        ResponseBuilder { status_code: self.status_code, body: Some(body.to_owned()), cookies: self.cookies }
    }

    /// Replaces the cookies wholesale, keeping everything else.
    pub fn with_cookies(self, cookies: Vec<Cookie>) -> (r: ResponseBuilder<TStatusCode>)
        ensures
            r.cookies == cookies,
            r.status_code == self.status_code,
            r.body == self.body,
    {
        ResponseBuilder { status_code: self.status_code, body: self.body, cookies }
    }

    /// Adds one cookie, unless one with the same key is already carried:
    /// the first write wins and a later duplicate is silently dropped.
    pub fn add_cookie(self, cookie: Cookie) -> (r: ResponseBuilder<TStatusCode>)
        ensures
            r.cookies.deep_view() == add_cookie_spec(self.cookies.deep_view(), cookie@),
            r.status_code == self.status_code,
            r.body == self.body,
    {
        let ghost cs = self.cookies.deep_view();
        let mut i: usize = 0;
        while i < self.cookies.len()
            invariant
                i <= self.cookies.len(),
                cs == self.cookies.deep_view(),
                forall|j: int| 0 <= j < i ==> cs[j].key != cookie@.key,
            decreases self.cookies.len() - i,
        {
            if str_eq(self.cookies[i].key.as_str(), cookie.key.as_str()) {
                proof {
                    assert(cs[i as int].key == cookie@.key);
                    assert(has_cookie_key(cs, cookie@.key));
                }
                return self;
            }
            i += 1;
        }
        proof {
            assert(!has_cookie_key(cs, cookie@.key));
        }
        let mut cookies = self.cookies;
        let ghost pre = cookies.deep_view();
        cookies.push(cookie);
        proof {
            assert(cookies.deep_view() =~~= pre.push(cookie@));
        }
        ResponseBuilder { status_code: self.status_code, body: self.body, cookies }
    }
}

impl ResponseBuilder<StatusCode> {
    /// Builds the response a fully-staged builder describes.
    pub fn build(self) -> (r: Response)
        ensures
            r@ == (ResponseView {
                status_code: self.status_code.0,
                body: self.body.deep_view(),
                cookies: self.cookies.deep_view(),
            }),
    {
        Response { status_code: self.status_code.0, body: self.body, cookies: self.cookies }
    }
}

} // verus!
