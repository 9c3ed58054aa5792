//! Parsing of the wire tokens: method, version and URI.

use vstd::prelude::*;

use crate::http::{Method, Uri, UriView, Version};
use crate::text::{
    lemma_split_all_none, lemma_split_all_step, lemma_split_at_first_some, split_all,
    split_all_exec, split_at_first, split_at_first_exec, str_eq,
};

verus! {

broadcast use vstd::string::group_string_axioms;

/// The wire token of each method.
pub open spec fn method_token(m: Method) -> Seq<char> {
    match m {
        Method::Get => "GET"@,
        Method::Head => "HEAD"@,
        Method::Post => "POST"@,
        Method::Put => "PUT"@,
        Method::Delete => "DELETE"@,
        Method::Connect => "CONNECT"@,
        Method::Options => "OPTIONS"@,
        Method::Trace => "TRACE"@,
    }
}

/// The method a token denotes: exact, case-sensitive; every other token
/// denotes none.
pub open spec fn method_of(s: Seq<char>) -> Option<Method> {
    if s == method_token(Method::Get) {
        Some(Method::Get)
    } else if s == method_token(Method::Head) {
        Some(Method::Head)
    } else if s == method_token(Method::Post) {
        Some(Method::Post)
    } else if s == method_token(Method::Put) {
        Some(Method::Put)
    } else if s == method_token(Method::Delete) {
        Some(Method::Delete)
    } else if s == method_token(Method::Connect) {
        Some(Method::Connect)
    } else if s == method_token(Method::Options) {
        Some(Method::Options)
    } else if s == method_token(Method::Trace) {
        Some(Method::Trace)
    } else {
        None
    }
}

/// Parsing a method's own token gives that method back: the two spec
/// functions invert each other, so no two methods share a token.
pub proof fn lemma_method_token_parses(m: Method)
    ensures
        method_of(method_token(m)) == Some(m),
{
    reveal_strlit("GET");
    reveal_strlit("HEAD");
    reveal_strlit("POST");
    reveal_strlit("PUT");
    reveal_strlit("DELETE");
    reveal_strlit("CONNECT");
    reveal_strlit("OPTIONS");
    reveal_strlit("TRACE");
    match m {
        Method::Get => {
            assert(method_of(method_token(m)) == Some(Method::Get));
        },
        Method::Head => {
            assert("HEAD"@.len() != "GET"@.len());
            assert("HEAD"@ != "GET"@);
            assert(method_of(method_token(m)) == Some(Method::Head));
        },
        Method::Post => {
            assert("POST"@.len() != "GET"@.len());
            assert("POST"@ != "GET"@);
            assert("POST"@[0] != "HEAD"@[0]);
            assert("POST"@ != "HEAD"@);
            assert(method_of(method_token(m)) == Some(Method::Post));
        },
        Method::Put => {
            assert("PUT"@[0] != "GET"@[0]);
            assert("PUT"@ != "GET"@);
            assert("PUT"@.len() != "HEAD"@.len());
            assert("PUT"@ != "HEAD"@);
            assert("PUT"@.len() != "POST"@.len());
            assert("PUT"@ != "POST"@);
            assert(method_of(method_token(m)) == Some(Method::Put));
        },
        Method::Delete => {
            assert("DELETE"@.len() != "GET"@.len());
            assert("DELETE"@ != "GET"@);
            assert("DELETE"@.len() != "HEAD"@.len());
            assert("DELETE"@ != "HEAD"@);
            assert("DELETE"@.len() != "POST"@.len());
            assert("DELETE"@ != "POST"@);
            assert("DELETE"@.len() != "PUT"@.len());
            assert("DELETE"@ != "PUT"@);
            assert(method_of(method_token(m)) == Some(Method::Delete));
        },
        Method::Connect => {
            assert("CONNECT"@.len() != "GET"@.len());
            assert("CONNECT"@ != "GET"@);
            assert("CONNECT"@.len() != "HEAD"@.len());
            assert("CONNECT"@ != "HEAD"@);
            assert("CONNECT"@.len() != "POST"@.len());
            assert("CONNECT"@ != "POST"@);
            assert("CONNECT"@.len() != "PUT"@.len());
            assert("CONNECT"@ != "PUT"@);
            assert("CONNECT"@.len() != "DELETE"@.len());
            assert("CONNECT"@ != "DELETE"@);
            assert(method_of(method_token(m)) == Some(Method::Connect));
        },
        Method::Options => {
            assert("OPTIONS"@.len() != "GET"@.len());
            assert("OPTIONS"@ != "GET"@);
            assert("OPTIONS"@.len() != "HEAD"@.len());
            assert("OPTIONS"@ != "HEAD"@);
            assert("OPTIONS"@.len() != "POST"@.len());
            assert("OPTIONS"@ != "POST"@);
            assert("OPTIONS"@.len() != "PUT"@.len());
            assert("OPTIONS"@ != "PUT"@);
            assert("OPTIONS"@.len() != "DELETE"@.len());
            assert("OPTIONS"@ != "DELETE"@);
            assert("OPTIONS"@[0] != "CONNECT"@[0]);
            assert("OPTIONS"@ != "CONNECT"@);
            assert(method_of(method_token(m)) == Some(Method::Options));
        },
        Method::Trace => {
            assert("TRACE"@.len() != "GET"@.len());
            assert("TRACE"@ != "GET"@);
            assert("TRACE"@.len() != "HEAD"@.len());
            assert("TRACE"@ != "HEAD"@);
            assert("TRACE"@.len() != "POST"@.len());
            assert("TRACE"@ != "POST"@);
            assert("TRACE"@.len() != "PUT"@.len());
            assert("TRACE"@ != "PUT"@);
            assert("TRACE"@.len() != "DELETE"@.len());
            assert("TRACE"@ != "DELETE"@);
            assert("TRACE"@.len() != "CONNECT"@.len());
            assert("TRACE"@ != "CONNECT"@);
            assert("TRACE"@.len() != "OPTIONS"@.len());
            assert("TRACE"@ != "OPTIONS"@);
            assert(method_of(method_token(m)) == Some(Method::Trace));
        },
    }
}

/// A token that parses at all is the parsed method's own token, and a
/// token that is no method's fails.
pub proof fn lemma_method_of_inverts(s: Seq<char>)
    ensures
        match method_of(s) {
            Some(m) => s == method_token(m),
            None => forall|m: Method| s != method_token(m),
        },
{
    if method_of(s) is None {
        assert forall|m: Method| s != method_token(m) by {
            match m {
                Method::Get => {},
                Method::Head => {},
                Method::Post => {},
                Method::Put => {},
                Method::Delete => {},
                Method::Connect => {},
                Method::Options => {},
                Method::Trace => {},
            }
        }
    }
}

impl Method {
    /// Parses a method token; any unrecognized token is rejected.
    pub fn parse(s: &str) -> (r: Result<Method, &'static str>)
        ensures
            match r {
                Ok(m) => method_of(s@) == Some(m),
                Err(e) => method_of(s@) is None && e@ == "Invalid method"@,
            },
    {
        if str_eq(s, "GET") {
            Ok(Method::Get)
        } else if str_eq(s, "HEAD") {
            Ok(Method::Head)
        } else if str_eq(s, "POST") {
            Ok(Method::Post)
        } else if str_eq(s, "PUT") {
            Ok(Method::Put)
        } else if str_eq(s, "DELETE") {
            Ok(Method::Delete)
        } else if str_eq(s, "CONNECT") {
            Ok(Method::Connect)
        } else if str_eq(s, "OPTIONS") {
            Ok(Method::Options)
        } else if str_eq(s, "TRACE") {
            Ok(Method::Trace)
        } else {
            Err("Invalid method")
        }
    }
}

/// The wire token of each version.
pub open spec fn version_token(v: Version) -> Seq<char> {
    match v {
        Version::Http1_0 => "HTTP/1.0"@,
        Version::Http1_1 => "HTTP/1.1"@,
    }
}

/// The version a token denotes; every other token denotes none.
pub open spec fn version_of(s: Seq<char>) -> Option<Version> {
    if s == version_token(Version::Http1_0) {
        Some(Version::Http1_0)
    } else if s == version_token(Version::Http1_1) {
        Some(Version::Http1_1)
    } else {
        None
    }
}

/// Parsing a version's own token gives that version back.
pub proof fn lemma_version_token_parses(v: Version)
    ensures
        version_of(version_token(v)) == Some(v),
{
    reveal_strlit("HTTP/1.0");
    reveal_strlit("HTTP/1.1");
    match v {
        Version::Http1_0 => assert(version_of(version_token(v)) == Some(Version::Http1_0)),
        Version::Http1_1 => {
            assert("HTTP/1.1"@[7] != "HTTP/1.0"@[7]);
            assert("HTTP/1.1"@ != "HTTP/1.0"@);
            assert(version_of(version_token(v)) == Some(Version::Http1_1));
        },
    }
}

impl Version {
    /// Parses a version token; anything but the two spoken versions is
    /// rejected.
    pub fn parse(s: &str) -> (r: Result<Version, &'static str>)
        ensures
            match r {
                Ok(v) => version_of(s@) == Some(v),
                Err(e) => version_of(s@) is None && e@ == "Invalid version"@,
            },
    {
        if str_eq(s, "HTTP/1.0") {
            Ok(Version::Http1_0)
        } else if str_eq(s, "HTTP/1.1") {
            Ok(Version::Http1_1)
        } else {
            Err("Invalid version")
        }
    }
}

/// The key/value pairs a sequence of `k=v` pieces denotes: each piece is
/// cut at its first `=`, and a piece without `=` is dropped while the rest
/// are kept.
pub open spec fn kv_pairs(pairs: Seq<Seq<char>>) -> Seq<(Seq<char>, Seq<char>)>
    decreases pairs.len(),
{
    if pairs.len() == 0 {
        seq![]
    } else {
        let r = kv_pairs(pairs.drop_last());
        let p = split_at_first(pairs.last(), '=');
        match p.1 {
            Some(v) => r.push((p.0, v)),
            None => r,
        }
    }
}

/// A piece without `=` contributes nothing: removing it leaves the
/// attributes unchanged.
pub proof fn lemma_pair_without_eq_dropped(pairs: Seq<Seq<char>>, i: int)
    requires
        0 <= i < pairs.len(),
        split_at_first(pairs[i], '=').1 is None,
    ensures
        kv_pairs(pairs) == kv_pairs(pairs.remove(i)),
    decreases pairs.len(),
{
    if i == pairs.len() - 1 {
        assert(pairs.remove(i) =~~= pairs.drop_last());
    } else {
        lemma_pair_without_eq_dropped(pairs.drop_last(), i);
        assert(pairs.remove(i).drop_last() =~~= pairs.drop_last().remove(i));
        assert(pairs.remove(i).last() == pairs.last());
    }
}

/// The URI a token denotes: the path before the first `?`, and, when a
/// query string follows, its attributes.
pub open spec fn uri_of(s: Seq<char>) -> UriView {
    let sp = split_at_first(s, '?');
    UriView {
        path: sp.0,
        attributes: match sp.1 {
            Some(q) => kv_pairs(split_all(q, '&')),
            None => seq![],
        },
    }
}

/// Parsing a URI of the shape `path?k1=v1&k2=v2` yields that path and
/// exactly those two attributes, in that order: provided the path holds
/// no `?`, the keys hold neither `&` nor `=`, and the values hold no `&`.
pub proof fn lemma_uri_query_pairs(
    path: Seq<char>,
    k1: Seq<char>,
    v1: Seq<char>,
    k2: Seq<char>,
    v2: Seq<char>,
)
    requires
        forall|i: int| 0 <= i < path.len() ==> path[i] != '?',
        forall|i: int| 0 <= i < k1.len() ==> k1[i] != '&' && k1[i] != '=',
        forall|i: int| 0 <= i < k2.len() ==> k2[i] != '&' && k2[i] != '=',
        forall|i: int| 0 <= i < v1.len() ==> v1[i] != '&',
        forall|i: int| 0 <= i < v2.len() ==> v2[i] != '&',
    ensures
        uri_of(path + seq!['?'] + k1 + seq!['='] + v1 + seq!['&'] + k2 + seq!['='] + v2)
            == (UriView { path, attributes: seq![(k1, v1), (k2, v2)] }),
{
    let s = path + seq!['?'] + k1 + seq!['='] + v1 + seq!['&'] + k2 + seq!['='] + v2;
    let q = k1 + seq!['='] + v1 + seq!['&'] + k2 + seq!['='] + v2;
    let pl = path.len() as int;
    assert(s[pl] == '?');
    lemma_split_at_first_some(s, '?', pl);
    assert(s.take(pl) =~= path);
    assert(s.skip(pl + 1) =~= q);

    let p1 = k1 + seq!['='] + v1;
    let p2 = k2 + seq!['='] + v2;
    let al = p1.len() as int;
    assert(q[al] == '&');
    assert forall|j: int| 0 <= j < al implies q[j] != '&' by {
        if j < k1.len() {
            assert(q[j] == k1[j]);
        } else if j == k1.len() {
            assert(q[j] == '=');
        } else {
            assert(q[j] == v1[j - k1.len() - 1]);
        }
    }
    lemma_split_all_step(q, '&', al);
    assert(q.take(al) =~= p1);
    assert(q.skip(al + 1) =~= p2);
    assert forall|j: int| 0 <= j < p2.len() implies p2[j] != '&' by {
        if j < k2.len() {
            assert(p2[j] == k2[j]);
        } else if j == k2.len() {
            assert(p2[j] == '=');
        } else {
            assert(p2[j] == v2[j - k2.len() - 1]);
        }
    }
    lemma_split_all_none(p2, '&');
    let pairs = split_all(q, '&');
    assert(pairs =~~= seq![p1, p2]);

    assert(p1[k1.len() as int] == '=');
    assert forall|j: int| 0 <= j < k1.len() implies p1[j] != '=' by {
        assert(p1[j] == k1[j]);
    }
    lemma_split_at_first_some(p1, '=', k1.len() as int);
    assert(p1.take(k1.len() as int) =~= k1);
    assert(p1.skip(k1.len() as int + 1) =~= v1);

    assert(p2[k2.len() as int] == '=');
    assert forall|j: int| 0 <= j < k2.len() implies p2[j] != '=' by {
        assert(p2[j] == k2[j]);
    }
    lemma_split_at_first_some(p2, '=', k2.len() as int);
    assert(p2.take(k2.len() as int) =~= k2);
    assert(p2.skip(k2.len() as int + 1) =~= v2);

    assert(pairs.drop_last() =~~= seq![p1]);
    assert(seq![p1].drop_last() =~~= Seq::<Seq<char>>::empty());
    assert(kv_pairs(Seq::<Seq<char>>::empty()) =~~= Seq::<(Seq<char>, Seq<char>)>::empty());
    assert(seq![p1].last() == p1);
    assert(split_at_first(p1, '=') == (k1, Some(v1)));
    assert(kv_pairs(seq![p1]) =~~= seq![(k1, v1)]);
    assert(kv_pairs(pairs) =~~= seq![(k1, v1), (k2, v2)]);
    assert(uri_of(s) == (UriView { path, attributes: seq![(k1, v1), (k2, v2)] }));
}

impl Uri {
    /// Parses a request target.  Every token is a URI, so this never
    /// fails; the fallible shape mirrors the other wire-token parsers.
    pub fn parse(s: &str) -> (r: Result<Uri, &'static str>)
        ensures
            match r {
                Ok(u) => u@ == uri_of(s@),
                Err(_) => false,
            },
    {
        let (path, q) = split_at_first_exec(s, '?');
        let attributes: Vec<(String, String)> = match q {
            Some(q) => {
                let pairs = split_all_exec(q.as_str(), '&');
                let ghost pv = pairs.deep_view();
                let mut out: Vec<(String, String)> = Vec::new();
                let mut i: usize = 0;
                proof {
                    assert(pv.take(0) =~~= Seq::<Seq<char>>::empty());
                    assert(out.deep_view() =~~= kv_pairs(pv.take(0)));
                }
                while i < pairs.len()
                    invariant
                        i <= pairs.len(),
                        pv == pairs.deep_view(),
                        out.deep_view() == kv_pairs(pv.take(i as int)),
                    decreases pairs.len() - i,
                {
                    let ghost pre = out.deep_view();
                    let p = split_at_first_exec(pairs[i].as_str(), '=');
                    if let Some(v) = p.1 {
                        out.push((p.0, v));
                        proof {
                            assert(out.deep_view() =~~= pre.push((p.0@, v@)));
                        }
                    }
                    proof {
                        assert(pv.take(i + 1).drop_last() =~~= pv.take(i as int));
                        assert(pv.take(i + 1).last() == pv[i as int]);
                        assert(out.deep_view() =~~= kv_pairs(pv.take(i + 1)));
                    }
                    i += 1;
                }
                proof {
                    assert(pv.take(pairs.len() as int) =~~= pv);
                }
                out
            },
            None => Vec::new(),
        };
        let u = Uri { path, attributes };
        proof {
            assert(u@.attributes =~~= uri_of(s@).attributes);
            assert(u@ == uri_of(s@));
        }
        Ok(u)
    }
}

} // verus!
