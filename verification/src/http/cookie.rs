//! Response-side cookies: a staged builder that demands a key and a value
//! before a cookie can be built, and the `Set-Cookie` wire encoding.

use vstd::prelude::*;
use vstd::string::{StrSliceExecFns, StringExecFns};

verus! {

/// A response cookie: a key/value pair and its optional attributes.
#[derive(Debug)]
pub struct Cookie {
    pub key: String,
    pub value: String,
    pub secure: bool,
    pub http_only: bool,
    pub domain: Option<String>,
    pub path: Option<String>,
    pub expires: Option<String>,
    pub max_age: Option<String>,
    pub same_site: Option<String>,
}

/// The mathematical content of a `Cookie`.
#[verifier::ext_equal]
pub struct CookieView {
    pub key: Seq<char>,
    pub value: Seq<char>,
    pub secure: bool,
    pub http_only: bool,
    pub domain: Option<Seq<char>>,
    pub path: Option<Seq<char>>,
    pub expires: Option<Seq<char>>,
    pub max_age: Option<Seq<char>>,
    pub same_site: Option<Seq<char>>,
}

impl View for Cookie {
    type V = CookieView;

    open spec fn view(&self) -> CookieView {
        CookieView {
            key: self.key@,
            value: self.value@,
            secure: self.secure,
            http_only: self.http_only,
            domain: self.domain.deep_view(),
            path: self.path.deep_view(),
            expires: self.expires.deep_view(),
            max_age: self.max_age.deep_view(),
            same_site: self.same_site.deep_view(),
        }
    }
}

impl DeepView for Cookie {
    type V = CookieView;

    open spec fn deep_view(&self) -> CookieView {
        self.view()
    }
}

/// An attribute clause: its prefix followed by the value when the value is
/// set, and nothing otherwise.
pub open spec fn opt_clause(prefix: Seq<char>, v: Option<Seq<char>>) -> Seq<char> {
    match v {
        Some(x) => prefix + x,
        None => Seq::empty(),
    }
}

/// The `Set-Cookie` line of a cookie: the key/value pair, then the
/// attribute clauses in the fixed wire order Domain, Path, Expires,
/// Max-Age, SameSite, Secure, HttpOnly, each appearing only when set,
/// and the line terminator.
pub open spec fn cookie_line(c: CookieView) -> Seq<char> {
    "Set-Cookie: "@ + c.key + "="@ + c.value + opt_clause("; Domain="@, c.domain) + opt_clause(
        "; Path="@,
        c.path,
    ) + opt_clause("; Expires="@, c.expires) + opt_clause("; Max-Age="@, c.max_age) + opt_clause(
        "; SameSite="@,
        c.same_site,
    ) + (if c.secure {
        "; Secure"@
    } else {
        Seq::<char>::empty()
    }) + (if c.http_only {
        "; HttpOnly"@
    } else {
        Seq::<char>::empty()
    }) + "\r\n"@
}

impl Cookie {
    /// Encodes the cookie as its `Set-Cookie` line, exactly as
    /// `cookie_line` states.
    pub fn serialize(&self) -> (r: String)
        ensures
            r@ == cookie_line(self@),
    {
        let mut out = String::new();
        out.append("Set-Cookie: ");
        out.append(self.key.as_str());
        out.append("=");
        out.append(self.value.as_str());
        let ghost s0 = "Set-Cookie: "@ + self@.key + "="@ + self@.value;
        proof {
            assert(out@ =~= s0);
        }
        match &self.domain {
            Some(d) => {
                out.append("; Domain=");
                out.append(d.as_str());
            },
            None => {},
        }
        let ghost s1 = s0 + opt_clause("; Domain="@, self@.domain);
        proof {
            assert(out@ =~= s1);
        }
        match &self.path {
            Some(p) => {
                out.append("; Path=");
                out.append(p.as_str());
            },
            None => {},
        }
        let ghost s2 = s1 + opt_clause("; Path="@, self@.path);
        proof {
            assert(out@ =~= s2);
        }
        match &self.expires {
            Some(e) => {
                out.append("; Expires=");
                out.append(e.as_str());
            },
            None => {},
        }
        let ghost s3 = s2 + opt_clause("; Expires="@, self@.expires);
        proof {
            assert(out@ =~= s3);
        }
        match &self.max_age {
            Some(a) => {
                out.append("; Max-Age=");
                out.append(a.as_str());
            },
            None => {},
        }
        let ghost s4 = s3 + opt_clause("; Max-Age="@, self@.max_age);
        proof {
            assert(out@ =~= s4);
        }
        match &self.same_site {
            Some(s) => {
                out.append("; SameSite=");
                out.append(s.as_str());
            },
            None => {},
        }
        let ghost s5 = s4 + opt_clause("; SameSite="@, self@.same_site);
        proof {
            assert(out@ =~= s5);
        }
        if self.secure {
            out.append("; Secure");
        }
        let ghost s6 = s5 + (if self@.secure {
            "; Secure"@
        } else {
            Seq::<char>::empty()
        });
        proof {
            assert(out@ =~= s6);
        }
        if self.http_only {
            out.append("; HttpOnly");
        }
        let ghost s7 = s6 + (if self@.http_only {
            "; HttpOnly"@
        } else {
            Seq::<char>::empty()
        });
        proof {
            assert(out@ =~= s7);
        }
        out.append("\r\n");
        proof {
            assert(out@ =~= s7 + "\r\n"@);
            assert(s7 + "\r\n"@ == cookie_line(self@));
        }
        out
    }
}

/// Marker for a builder that has no key yet.
#[derive(Clone)]
pub struct NoKey;

/// Marker holding the key a builder was given.
#[derive(Clone)]
pub struct Key(pub String);

/// Marker for a builder that has no value yet.
#[derive(Clone)]
pub struct NoValue;

/// Marker holding the value a builder was given.
#[derive(Clone)]
pub struct Value(pub String);

/// A staged cookie builder: only a builder holding both a key and a value
/// can build a cookie.
pub struct CookieBuilder<Tkey, Tvalue> {
    pub key: Tkey,
    pub value: Tvalue,
    pub secure: bool,
    pub http_only: bool,
    pub domain: Option<String>,
    pub path: Option<String>,
    pub expires: Option<String>,
    pub max_age: Option<String>,
    pub same_site: Option<String>,
}

impl CookieBuilder<NoKey, NoValue> {
    /// A fresh builder: no key, no value, no attributes.
    pub fn new() -> (r: Self)
        ensures
            !r.secure,
            !r.http_only,
            r.domain is None,
            r.path is None,
            r.expires is None,
            r.max_age is None,
            r.same_site is None,
    {
        CookieBuilder {
            key: NoKey,
            value: NoValue,
            secure: false,
            http_only: false,
            domain: None,
            path: None,
            expires: None,
            max_age: None,
            same_site: None,
        }
    }
}

impl<Tvalue> CookieBuilder<NoKey, Tvalue> {
    /// Supplies the key, keeping everything else.
    pub fn with_key(self, key: &str) -> (r: CookieBuilder<Key, Tvalue>)
        ensures
            r.key.0@ == key@,
            r.value == self.value,
            r.secure == self.secure,
            r.http_only == self.http_only,
            r.domain == self.domain,
            r.path == self.path,
            r.expires == self.expires,
            r.max_age == self.max_age,
            r.same_site == self.same_site,
    {
        CookieBuilder {
            key: Key(key.to_owned()),
            value: self.value,
            secure: self.secure,
            http_only: self.http_only,
            domain: self.domain,
            path: self.path,
            expires: self.expires,
            max_age: self.max_age,
            same_site: self.same_site,
        }
    }
}

impl<Tkey> CookieBuilder<Tkey, NoValue> {
    /// Supplies the value, keeping everything else.
    pub fn with_value(self, value: &str) -> (r: CookieBuilder<Tkey, Value>)
        ensures
            r.value.0@ == value@,
            r.key == self.key,
            r.secure == self.secure,
            r.http_only == self.http_only,
            r.domain == self.domain,
            r.path == self.path,
            r.expires == self.expires,
            r.max_age == self.max_age,
            r.same_site == self.same_site,
    {
        CookieBuilder {
            key: self.key,
            value: Value(value.to_owned()),
            secure: self.secure,
            http_only: self.http_only,
            domain: self.domain,
            path: self.path,
            expires: self.expires,
            max_age: self.max_age,
            same_site: self.same_site,
        }
    }
}

impl CookieBuilder<Key, Value> {
    /// Builds the cookie a fully-staged builder describes.
    pub fn build(self) -> (r: Cookie)
        ensures
            r@ == (CookieView {
                key: self.key.0@,
                value: self.value.0@,
                secure: self.secure,
                http_only: self.http_only,
                domain: self.domain.deep_view(),
                path: self.path.deep_view(),
                expires: self.expires.deep_view(),
                max_age: self.max_age.deep_view(),
                same_site: self.same_site.deep_view(),
            }),
    {
        Cookie {
            key: self.key.0,
            value: self.value.0,
            secure: self.secure,
            http_only: self.http_only,
            domain: self.domain,
            path: self.path,
            expires: self.expires,
            max_age: self.max_age,
            same_site: self.same_site,
        }
    }
}

impl<Tkey, Tvalue> CookieBuilder<Tkey, Tvalue> {
    /// Sets or clears the secure flag, keeping everything else.
    pub fn with_secure(self, secure: bool) -> (r: Self)
        ensures
            r.secure == secure,
            r.key == self.key,
            r.value == self.value,
            r.http_only == self.http_only,
            r.domain == self.domain,
            r.path == self.path,
            r.expires == self.expires,
            r.max_age == self.max_age,
            r.same_site == self.same_site,
    {
        Self { secure, ..self }
    }

    /// Sets or clears the http-only flag, keeping everything else.
    pub fn with_http_only(self, http_only: bool) -> (r: Self)
        ensures
            r.http_only == http_only,
            r.key == self.key,
            r.value == self.value,
            r.secure == self.secure,
            r.domain == self.domain,
            r.path == self.path,
            r.expires == self.expires,
            r.max_age == self.max_age,
            r.same_site == self.same_site,
    {
        Self { http_only, ..self }
    }

    /// Sets the domain attribute, keeping everything else.
    pub fn with_domain(self, domain: &str) -> (r: Self)
        ensures
            r.domain matches Some(d) && d@ == domain@,
            r.key == self.key,
            r.value == self.value,
            r.secure == self.secure,
            r.http_only == self.http_only,
            r.path == self.path,
            r.expires == self.expires,
            r.max_age == self.max_age,
            r.same_site == self.same_site,
    {
        Self { domain: Some(domain.to_owned()), ..self }
    }

    /// Sets the path attribute, keeping everything else.
    pub fn with_path(self, path: &str) -> (r: Self)
        ensures
            r.path matches Some(p) && p@ == path@,
            r.key == self.key,
            r.value == self.value,
            r.secure == self.secure,
            r.http_only == self.http_only,
            r.domain == self.domain,
            r.expires == self.expires,
            r.max_age == self.max_age,
            r.same_site == self.same_site,
    {
        Self { path: Some(path.to_owned()), ..self }
    }

    /// Sets the expiry attribute, keeping everything else.
    pub fn with_expires(self, expires: &str) -> (r: Self)
        ensures
            r.expires matches Some(e) && e@ == expires@,
            r.key == self.key,
            r.value == self.value,
            r.secure == self.secure,
            r.http_only == self.http_only,
            r.domain == self.domain,
            r.path == self.path,
            r.max_age == self.max_age,
            r.same_site == self.same_site,
    {
        Self { expires: Some(expires.to_owned()), ..self }
    }

    /// Sets the maximum-age attribute, keeping everything else.
    pub fn with_max_age(self, max_age: &str) -> (r: Self)
        ensures
            r.max_age matches Some(a) && a@ == max_age@,
            r.key == self.key,
            r.value == self.value,
            r.secure == self.secure,
            r.http_only == self.http_only,
            r.domain == self.domain,
            r.path == self.path,
            r.expires == self.expires,
            r.same_site == self.same_site,
    {
        Self { max_age: Some(max_age.to_owned()), ..self }
    }

    /// Sets the same-site attribute, keeping everything else.
    pub fn with_same_site(self, same_site: &str) -> (r: Self)
        ensures
            r.same_site matches Some(s) && s@ == same_site@,
            r.key == self.key,
            r.value == self.value,
            r.secure == self.secure,
            r.http_only == self.http_only,
            r.domain == self.domain,
            r.path == self.path,
            r.expires == self.expires,
            r.max_age == self.max_age,
    {
        Self { same_site: Some(same_site.to_owned()), ..self }
    }
}

/// A request-side cookie: one key/value pair decoded from the `Cookie`
/// header.
#[derive(Debug, Clone)]
pub struct RequestCookie {
    pub key: String,
    pub value: String,
}

impl View for RequestCookie {
    type V = (Seq<char>, Seq<char>);

    open spec fn view(&self) -> (Seq<char>, Seq<char>) {
        (self.key@, self.value@)
    }
}

impl DeepView for RequestCookie {
    type V = (Seq<char>, Seq<char>);

    open spec fn deep_view(&self) -> (Seq<char>, Seq<char>) {
        self.view()
    }
}

} // verus!
