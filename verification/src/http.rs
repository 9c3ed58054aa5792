//! The wire-level data types: methods, versions, URIs, requests, cookies
//! and responses, together with their mathematical views.

use vstd::prelude::*;

pub mod cookie;
pub mod request;
pub mod response;
pub mod types;

verus! {

/// An HTTP method: the closed set of request verbs.
#[derive(Debug, Clone, Copy, PartialEq, Eq, Structural)]
pub enum Method {
    Get,
    Head,
    Post,
    Put,
    Delete,
    Connect,
    Options,
    Trace,
}

/// An HTTP protocol version: only 1.0 and 1.1 are spoken here.
#[derive(Debug, Clone, Copy, PartialEq, Eq, Structural)]
pub enum Version {
    Http1_0,
    Http1_1,
}

/// A request target: the path before the first question mark, and the
/// query attributes behind it, in order of appearance, duplicates kept.
#[derive(Debug)]
pub struct Uri {
    pub path: String,
    pub attributes: Vec<(String, String)>,
}

/// The mathematical content of a `Uri`.
pub struct UriView {
    pub path: Seq<char>,
    pub attributes: Seq<(Seq<char>, Seq<char>)>,
}

impl View for Uri {
    type V = UriView;

    open spec fn view(&self) -> UriView {
        UriView { path: self.path@, attributes: self.attributes.deep_view() }
    }
}

} // verus!
