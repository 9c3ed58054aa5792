//! Requests: the structured form of one incoming message, and its parser.
//!
//! A request can be parsed whole from an in-memory string, or in two
//! steps for a caller that reads a stream: the header lines first, which
//! also say how many body bytes are still owed, and the body attached
//! once those bytes have been read.  Both paths go through the same
//! specification, so they agree on every input.

use vstd::prelude::*;
use vstd::string::{StrSliceExecFns, StringExecFns};
use vstd::utf8::{decode_utf8, encode_utf8, is_char_boundary};

use crate::http::cookie::RequestCookie;
use crate::http::types::{kv_pairs, method_of, uri_of, version_of};
use crate::http::{Method, Uri, UriView, Version};
use crate::text::{
    split_all_delim, split_all_delim_exec, split_at_first, split_at_first_exec, split_lines,
    split_lines_exec, tokens_exec, tokens_of, trim, trim_exec, u32_of,
};

verus! {

/// A parsed request.  Headers are a last-one-wins mapping; cookies and
/// query attributes keep their order of appearance.
#[derive(Debug)]
pub struct Request {
    pub method: Method,
    pub uri: Uri,
    pub version: Version,
    pub headers: Vec<(String, String)>,
    pub body: Option<String>,
    pub cookies: Vec<RequestCookie>,
}

/// The mathematical content of a `Request`.
#[verifier::ext_equal]
pub struct RequestView {
    pub method: Method,
    pub uri: UriView,
    pub version: Version,
    pub headers: Map<Seq<char>, Seq<char>>,
    pub body: Option<Seq<char>>,
    pub cookies: Seq<(Seq<char>, Seq<char>)>,
}

/// The mapping an association list denotes: insertion in order, a later
/// binding of a key shadowing an earlier one.
pub open spec fn assoc_map(ps: Seq<(Seq<char>, Seq<char>)>) -> Map<Seq<char>, Seq<char>>
    decreases ps.len(),
{
    if ps.len() == 0 {
        Map::empty()
    } else {
        assoc_map(ps.drop_last()).insert(ps.last().0, ps.last().1)
    }
}

impl View for Request {
    type V = RequestView;

    open spec fn view(&self) -> RequestView {
        RequestView {
            method: self.method,
            uri: self.uri@,
            version: self.version,
            headers: assoc_map(self.headers.deep_view()),
            body: self.body.deep_view(),
            cookies: self.cookies.deep_view(),
        }
    }
}

/// When the last binding of `k` in `ps` stands at `i`, the mapping sends
/// `k` there.
pub proof fn lemma_assoc_map_last_match(ps: Seq<(Seq<char>, Seq<char>)>, k: Seq<char>, i: int)
    requires
        0 <= i < ps.len(),
        ps[i].0 == k,
        forall|j: int| i < j < ps.len() ==> ps[j].0 != k,
    ensures
        assoc_map(ps).contains_key(k),
        assoc_map(ps)[k] == ps[i].1,
    decreases ps.len(),
{
    if i < ps.len() - 1 {
        lemma_assoc_map_last_match(ps.drop_last(), k, i);
    }
}

/// A key bound nowhere in `ps` is not in the mapping.
pub proof fn lemma_assoc_map_no_match(ps: Seq<(Seq<char>, Seq<char>)>, k: Seq<char>)
    requires
        forall|j: int| 0 <= j < ps.len() ==> ps[j].0 != k,
    ensures
        !assoc_map(ps).contains_key(k),
    decreases ps.len(),
{
    if ps.len() > 0 {
        lemma_assoc_map_no_match(ps.drop_last(), k);
    }
}

/// Looks a key up in an association list, later bindings shadowing
/// earlier ones, exactly as `assoc_map` states.
fn assoc_lookup<'a>(headers: &'a Vec<(String, String)>, key: &str) -> (r: Option<&'a String>)
    ensures
        match r {
            Some(v) => assoc_map(headers.deep_view()).contains_key(key@) && v@ == assoc_map(
                headers.deep_view(),
            )[key@],
            None => !assoc_map(headers.deep_view()).contains_key(key@),
        },
{
    let ghost ps = headers.deep_view();
    let mut i: usize = headers.len();
    while i > 0
        invariant
            i <= headers.len(),
            ps == headers.deep_view(),
            forall|j: int| i <= j < ps.len() ==> ps[j].0 != key@,
        decreases i,
    {
        i = i - 1;
        if crate::text::str_eq(headers[i].0.as_str(), key) {
            proof {
                lemma_assoc_map_last_match(ps, key@, i as int);
            }
            return Some(&headers[i].1);
        }
    }
    proof {
        lemma_assoc_map_no_match(ps, key@);
    }
    None
}

/// The lines that form the head of a message: everything up to the first
/// empty line.
pub open spec fn header_lines(ls: Seq<Seq<char>>) -> Seq<Seq<char>>
    decreases ls.len(),
{
    if ls.len() == 0 || ls[0].len() == 0 {
        seq![]
    } else {
        seq![ls[0]] + header_lines(ls.drop_first())
    }
}

/// While every line before `i` is non-empty, the head is those lines
/// followed by the head of the rest.
pub proof fn lemma_header_lines_take(ls: Seq<Seq<char>>, i: int)
    requires
        0 <= i <= ls.len(),
        forall|j: int| 0 <= j < i ==> ls[j].len() > 0,
    ensures
        header_lines(ls) == ls.take(i) + header_lines(ls.skip(i)),
    decreases i,
{
    if i == 0 {
        assert(ls.skip(0) =~~= ls);
        assert(ls.take(0) + header_lines(ls) =~~= header_lines(ls));
    } else {
        lemma_header_lines_take(ls.drop_first(), i - 1);
        assert(ls.drop_first().take(i - 1) =~~= ls.take(i).drop_first());
        assert(ls.drop_first().skip(i - 1) =~~= ls.skip(i));
        assert(seq![ls[0]] + (ls.take(i).drop_first() + header_lines(ls.skip(i))) =~~= ls.take(i)
            + header_lines(ls.skip(i)));
    }
}

/// The key/value pair a header line denotes: the text before the first
/// colon, and the text behind it with surrounding whitespace trimmed.  A
/// line without a colon denotes none and is dropped.
pub open spec fn header_pair(l: Seq<char>) -> Option<(Seq<char>, Seq<char>)> {
    let p = split_at_first(l, ':');
    match p.1 {
        Some(v) => Some((p.0, trim(v))),
        None => None,
    }
}

/// The mapping a sequence of header lines denotes: pairs inserted in
/// order, the last binding of a name winning.
pub open spec fn headers_fold(ls: Seq<Seq<char>>) -> Map<Seq<char>, Seq<char>>
    decreases ls.len(),
{
    if ls.len() == 0 {
        Map::empty()
    } else {
        let m = headers_fold(ls.drop_last());
        match header_pair(ls.last()) {
            Some(p) => m.insert(p.0, p.1),
            None => m,
        }
    }
}

/// The cookie pairs a `Cookie` header value denotes: the value split at
/// every `; `, each piece cut at its first `=`, pieces without `=`
/// dropped.
pub open spec fn cookie_pairs(v: Seq<char>) -> Seq<(Seq<char>, Seq<char>)> {
    kv_pairs(split_all_delim(v, "; "@))
}

/// What the head of a message denotes: the structured request without its
/// body, and the number of body bytes the `Content-Length` header owes
/// (zero when there is no body to read); or the failure the head earns.
pub open spec fn head_of(lines: Seq<Seq<char>>) -> Result<(RequestView, u32), Seq<char>> {
    if lines.len() == 0 {
        Err("Empty request"@)
    } else {
        let toks = tokens_of(lines[0]);
        if toks.len() < 1 {
            Err("No method found"@)
        } else {
            match method_of(toks[0]) {
                None => Err("Invalid method"@),
                Some(m) => {
                    if toks.len() < 2 {
                        Err("No uri found"@)
                    } else {
                        let uri = uri_of(toks[1]);
                        if toks.len() < 3 {
                            Err("No http version found"@)
                        } else {
                            match version_of(toks[2]) {
                                None => Err("Invalid version"@),
                                Some(ver) => {
                                    let hm = headers_fold(lines.skip(1));
                                    let cookies = if hm.contains_key("Cookie"@) {
                                        cookie_pairs(hm["Cookie"@])
                                    } else {
                                        seq![]
                                    };
                                    let rv = RequestView {
                                        method: m,
                                        uri,
                                        version: ver,
                                        headers: hm,
                                        body: None,
                                        cookies,
                                    };
                                    if !hm.contains_key("Content-Length"@) {
                                        Ok((rv, 0))
                                    } else {
                                        match u32_of(hm["Content-Length"@]) {
                                            None => Err("Invalid content length"@),
                                            Some(n) => Ok((rv, n)),
                                        }
                                    }
                                },
                            }
                        }
                    }
                },
            }
        }
    }
}

/// What a whole in-memory message denotes: its head, and, when the head
/// owes a body, the last `Content-Length` bytes of the buffer's UTF-8
/// encoding, decoded back to text; or the failure it earns.  A zero or
/// absent `Content-Length` leaves the body absent rather than empty, and
/// a byte tail that would split a character's encoding is rejected.
pub open spec fn request_of(s: Seq<char>) -> Result<RequestView, Seq<char>> {
    match head_of(header_lines(split_lines(s))) {
        Err(m) => Err(m),
        Ok((rv, n)) => if n == 0 {
            Ok(rv)
        } else {
            let bytes = encode_utf8(s);
            if n > bytes.len() {
                Err("Truncated body"@)
            } else if !is_char_boundary(bytes, bytes.len() - n) {
                Err("Invalid encoding"@)
            } else {
                Ok(RequestView { body: Some(decode_utf8(bytes.skip(bytes.len() - n))), ..rv })
            }
        },
    }
}

/// A message whose `Content-Length` header reads `0` parses to a request
/// without a body: absent, not empty.
pub proof fn lemma_content_length_zero_no_body(s: Seq<char>)
    requires
        request_of(s) is Ok,
        request_of(s)->Ok_0.headers.contains_key("Content-Length"@),
        request_of(s)->Ok_0.headers["Content-Length"@] == "0"@,
    ensures
        request_of(s)->Ok_0.body is None,
{
    reveal_strlit("0");
    let zero = "0"@;
    assert(zero =~= seq!['0']);
    assert(zero.drop_last() =~= Seq::<char>::empty());
    assert(crate::text::digits_val(Seq::<char>::empty()) == 0);
    assert(zero.last() == '0');
    assert(crate::text::digit_val('0') == 0);
    assert(crate::text::digits_val(zero) == 0);
    assert(crate::text::all_digits(zero));
    assert(crate::text::u32_of(zero) == Some(0u32));
    let head = head_of(header_lines(split_lines(s)));
    assert(head is Ok);
    assert(head->Ok_0.0.headers == request_of(s)->Ok_0.headers);
    assert(head->Ok_0.1 == 0);
}

impl Request {
    /// Whether a header of that exact name was supplied.
    pub fn contains_header(&self, header: &str) -> (r: bool)
        ensures
            r == self@.headers.contains_key(header@),
    {
        match assoc_lookup(&self.headers, header) {
            Some(_) => true,
            None => false,
        }
    }

    /// The value of the named header, the last occurrence winning.
    pub fn get_header<'a>(&'a self, header: &str) -> (r: Option<&'a String>)
        ensures
            match r {
                Some(v) => self@.headers.contains_key(header@) && v@ == self@.headers[header@],
                None => !self@.headers.contains_key(header@),
            },
    {
        assoc_lookup(&self.headers, header)
    }

    /// The first request cookie carrying the given key, if any.
    pub fn get_cookie<'a>(&'a self, key: &str) -> (r: Option<&'a RequestCookie>)
        ensures
            match r {
                Some(c) => exists|i: int|
                    0 <= i < self@.cookies.len() && self@.cookies[i] == c@ && c@.0 == key@
                        && forall|j: int| 0 <= j < i ==> self@.cookies[j].0 != key@,
                None => forall|i: int| 0 <= i < self@.cookies.len() ==> self@.cookies[i].0 != key@,
            },
    {
        let ghost cs = self@.cookies;
        let mut i: usize = 0;
        while i < self.cookies.len()
            invariant
                i <= self.cookies.len(),
                cs == self@.cookies,
                forall|j: int| 0 <= j < i ==> cs[j].0 != key@,
            decreases self.cookies.len() - i,
        {
            if crate::text::str_eq(self.cookies[i].key.as_str(), key) {
                proof {
                    assert(cs[i as int] == self.cookies@[i as int]@);
                }
                return Some(&self.cookies[i]);
            }
            i += 1;
        }
        None
    }

    /// Parses the head of a message, handed over as its header lines (the
    /// request line first, without the empty line that closed the head).
    /// On success the request carries no body yet; the number beside it
    /// says how many body bytes the message owes.
    pub fn parse_head(lines: &Vec<String>) -> (r: Result<(Request, u32), &'static str>)
        ensures
            match (r, head_of(lines.deep_view())) {
                (Ok((req, n)), Ok((rv, sn))) => req@ == rv && n == sn,
                (Err(e), Err(m)) => e@ == m,
                _ => false,
            },
    {
        let ghost lv = lines.deep_view();
        if lines.len() == 0 {
            return Err("Empty request");
        }
        let toks = tokens_exec(lines[0].as_str());
        proof {
            assert(lines@[0]@ == lv[0]);
        }
        if toks.len() == 0 {
            return Err("No method found");
        }
        let method = match Method::parse(toks[0].as_str()) {
            Ok(m) => m,
            Err(e) => {
                proof {
                    assert(toks.deep_view()[0] == toks@[0]@);
                }
                return Err(e);
            },
        };
        if toks.len() < 2 {
            return Err("No uri found");
        }
        let uri = match Uri::parse(toks[1].as_str()) {
            Ok(u) => u,
            Err(e) => {
                return Err(e);
            },
        };
        if toks.len() < 3 {
            return Err("No http version found");
        }
        let version = match Version::parse(toks[2].as_str()) {
            Ok(v) => v,
            Err(e) => {
                proof {
                    assert(toks.deep_view()[2] == toks@[2]@);
                }
                return Err(e);
            },
        };
        proof {
            assert(toks.deep_view()[0] == toks@[0]@);
            assert(toks.deep_view()[1] == toks@[1]@);
            assert(toks.deep_view()[2] == toks@[2]@);
        }
        let mut headers: Vec<(String, String)> = Vec::new();
        let mut i: usize = 1;
        proof {
            assert(lv.skip(1).take(0) =~~= Seq::<Seq<char>>::empty());
            assert(assoc_map(headers.deep_view()) =~~= headers_fold(lv.skip(1).take(0)));
        }
        while i < lines.len()
            invariant
                1 <= i <= lines.len(),
                lv == lines.deep_view(),
                assoc_map(headers.deep_view()) == headers_fold(lv.skip(1).take(i - 1)),
            decreases lines.len() - i,
        {
            let ghost pre = headers.deep_view();
            let (k, v) = split_at_first_exec(lines[i].as_str(), ':');
            if let Some(v) = v {
                let value = trim_exec(v.as_str());
                let ghost kk = k@;
                let ghost vv = value@;
                headers.push((k, value));
                proof {
                    assert(headers.deep_view() =~~= pre.push((kk, vv)));
                    assert(headers.deep_view().drop_last() =~~= pre);
                    assert(headers.deep_view().last() == (kk, vv));
                    assert(assoc_map(headers.deep_view()) =~~= assoc_map(pre).insert(kk, vv));
                    assert(header_pair(lv[i as int]) == Some((kk, vv)));
                }
            }
            proof {
                assert(lv.skip(1).take(i as int).drop_last() =~~= lv.skip(1).take(i - 1));
                assert(lv.skip(1).take(i as int).last() == lv[i as int]);
                assert(lines@[i as int]@ == lv[i as int]);
                assert(assoc_map(headers.deep_view()) =~~= headers_fold(lv.skip(1).take(i as int)));
            }
            i += 1;
        }
        proof {
            assert(lv.skip(1).take(lines.len() - 1) =~~= lv.skip(1));
        }
        let cookies: Vec<RequestCookie> = match assoc_lookup(&headers, "Cookie") {
            Some(cv) => {
                proof {
                    reveal_strlit("; ");
                }
                let pieces = split_all_delim_exec(cv.as_str(), "; ");
                let ghost pv = pieces.deep_view();
                let mut out: Vec<RequestCookie> = Vec::new();
                let mut j: usize = 0;
                proof {
                    assert(pv.take(0) =~~= Seq::<Seq<char>>::empty());
                    assert(out.deep_view() =~~= kv_pairs(pv.take(0)));
                }
                while j < pieces.len()
                    invariant
                        j <= pieces.len(),
                        pv == pieces.deep_view(),
                        out.deep_view() == kv_pairs(pv.take(j as int)),
                    decreases pieces.len() - j,
                {
                    let ghost pre = out.deep_view();
                    let p = split_at_first_exec(pieces[j].as_str(), '=');
                    if let Some(value) = p.1 {
                        out.push(RequestCookie { key: p.0, value });
                        proof {
                            assert(out.deep_view() =~~= pre.push((p.0@, value@)));
                        }
                    }
                    proof {
                        assert(pv.take(j + 1).drop_last() =~~= pv.take(j as int));
                        assert(pv.take(j + 1).last() == pv[j as int]);
                        assert(out.deep_view() =~~= kv_pairs(pv.take(j + 1)));
                    }
                    j += 1;
                }
                proof {
                    assert(pv.take(pieces.len() as int) =~~= pv);
                }
                out
            },
            None => Vec::new(),
        };
        let owed: u32 = match assoc_lookup(&headers, "Content-Length") {
            Some(clv) => {
                match crate::text::parse_u32(clv.as_str()) {
                    Some(n) => n,
                    None => {
                        return Err("Invalid content length");
                    },
                }
            },
            None => 0,
        };
        let req = Request { method, uri, version, headers, body: None, cookies };
        proof {
            let spec_r = head_of(lv);
            assert(spec_r is Ok);
            assert(req@ =~~= spec_r->Ok_0.0);
        }
        Ok((req, owed))
    }

    /// Parses one whole in-memory message, head and body together, as
    /// `request_of` states.
    pub fn parse(s: &str) -> (r: Result<Request, &'static str>)
        ensures
            match (r, request_of(s@)) {
                (Ok(req), Ok(rv)) => req@ == rv,
                (Err(e), Err(m)) => e@ == m,
                _ => false,
            },
    {
        let all = split_lines_exec(s);
        let ghost av = all.deep_view();
        let mut head: Vec<String> = Vec::new();
        let mut i: usize = 0;
        while i < all.len() && !all[i].as_str().is_empty()
            invariant
                i <= all.len(),
                av == all.deep_view(),
                head.deep_view() == av.take(i as int),
                forall|j: int| 0 <= j < i ==> av[j].len() > 0,
            decreases all.len() - i,
        {
            let ghost pre = head.deep_view();
            head.push(all[i].clone());
            proof {
                assert(head.deep_view() =~~= pre.push(av[i as int]));
                assert(head.deep_view() =~~= av.take(i + 1));
            }
            i += 1;
        }
        proof {
            lemma_header_lines_take(av, i as int);
            if i < av.len() {
                assert(av[i as int].len() == 0);
            }
            assert(header_lines(av.skip(i as int)) =~~= Seq::<Seq<char>>::empty());
            assert(head.deep_view() =~~= header_lines(av));
        }
        match Request::parse_head(&head) {
            Err(e) => Err(e),
            Ok((mut req, owed)) => {
                if owed == 0 {
                    proof {
                        assert(req@ =~~= request_of(s@)->Ok_0);
                    }
                    Ok(req)
                } else {
                    let blen = s.as_bytes().len();
                    proof {
                        vstd::utf8::encode_utf8_valid_utf8(s@);
                        assert(blen == encode_utf8(s@).len());
                    }
                    if (blen as u64) < (owed as u64) {
                        return Err("Truncated body");
                    }
                    let start = blen - (owed as usize);
                    if !s.is_char_boundary(start) {
                        return Err("Invalid encoding");
                    }
                    let (_, tail) = s.split_at(start);
                    let body = tail.to_owned();
                    proof {
                        let bytes = encode_utf8(s@);
                        assert(encode_utf8(tail@) == bytes.subrange(start as int, bytes.len() as int));
                        assert(bytes.skip(start as int) =~= bytes.subrange(
                            start as int,
                            bytes.len() as int,
                        ));
                        vstd::utf8::encode_utf8_decode_utf8(tail@);
                        assert(decode_utf8(bytes.skip(start as int)) == tail@);
                        assert(body@ == tail@);
                    }
                    req.body = Some(body);
                    proof {
                        assert(req@ =~~= request_of(s@)->Ok_0);
                    }
                    Ok(req)
                }
            },
        }
    }
}

} // verus!
