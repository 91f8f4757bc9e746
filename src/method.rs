use vstd::prelude::*;

use crate::bytes::bytes_eq;
use crate::error::HttpError;

verus! {

/// The request methods this proxy forwards.
#[derive(Debug, Clone, Copy, PartialEq, Eq, Structural)]
pub enum Method {
    Get,
    Post,
    Put,
    Delete,
    Options,
    Head,
    Trace,
    Connect,
    Patch,
}

/// The canonical upper-case name of each method, as ASCII bytes.
pub open spec fn method_name(m: Method) -> Seq<u8> {
    match m {
        Method::Get => seq![71, 69, 84],
        Method::Post => seq![80, 79, 83, 84],
        Method::Put => seq![80, 85, 84],
        Method::Delete => seq![68, 69, 76, 69, 84, 69],
        Method::Options => seq![79, 80, 84, 73, 79, 78, 83],
        Method::Head => seq![72, 69, 65, 68],
        Method::Trace => seq![84, 82, 65, 67, 69],
        Method::Connect => seq![67, 79, 78, 78, 69, 67, 84],
        Method::Patch => seq![80, 65, 84, 67, 72],
    }
}

/// The method whose canonical name is exactly `token`, if any.
pub open spec fn method_of(token: Seq<u8>) -> Option<Method> {
    if token == method_name(Method::Get) {
        Some(Method::Get)
    } else if token == method_name(Method::Post) {
        Some(Method::Post)
    } else if token == method_name(Method::Put) {
        Some(Method::Put)
    } else if token == method_name(Method::Delete) {
        Some(Method::Delete)
    } else if token == method_name(Method::Options) {
        Some(Method::Options)
    } else if token == method_name(Method::Head) {
        Some(Method::Head)
    } else if token == method_name(Method::Trace) {
        Some(Method::Trace)
    } else if token == method_name(Method::Connect) {
        Some(Method::Connect)
    } else if token == method_name(Method::Patch) {
        Some(Method::Patch)
    } else {
        None
    }
}

/// No two methods share a name.
pub proof fn lemma_method_names_distinct(m: Method)
    ensures
        method_of(method_name(m)) == Some(m),
{
    match m {
        Method::Get => {
        },
        Method::Post => {
            assert(method_name(Method::Post).len() != method_name(Method::Get).len() || method_name(Method::Post)[0] != method_name(Method::Get)[0]);
        },
        Method::Put => {
            assert(method_name(Method::Put).len() != method_name(Method::Get).len() || method_name(Method::Put)[0] != method_name(Method::Get)[0]);
            assert(method_name(Method::Put).len() != method_name(Method::Post).len() || method_name(Method::Put)[0] != method_name(Method::Post)[0]);
        },
        Method::Delete => {
            assert(method_name(Method::Delete).len() != method_name(Method::Get).len() || method_name(Method::Delete)[0] != method_name(Method::Get)[0]);
            assert(method_name(Method::Delete).len() != method_name(Method::Post).len() || method_name(Method::Delete)[0] != method_name(Method::Post)[0]);
            assert(method_name(Method::Delete).len() != method_name(Method::Put).len() || method_name(Method::Delete)[0] != method_name(Method::Put)[0]);
        },
        Method::Options => {
            assert(method_name(Method::Options).len() != method_name(Method::Get).len() || method_name(Method::Options)[0] != method_name(Method::Get)[0]);
            assert(method_name(Method::Options).len() != method_name(Method::Post).len() || method_name(Method::Options)[0] != method_name(Method::Post)[0]);
            assert(method_name(Method::Options).len() != method_name(Method::Put).len() || method_name(Method::Options)[0] != method_name(Method::Put)[0]);
            assert(method_name(Method::Options).len() != method_name(Method::Delete).len() || method_name(Method::Options)[0] != method_name(Method::Delete)[0]);
        },
        Method::Head => {
            assert(method_name(Method::Head).len() != method_name(Method::Get).len() || method_name(Method::Head)[0] != method_name(Method::Get)[0]);
            assert(method_name(Method::Head).len() != method_name(Method::Post).len() || method_name(Method::Head)[0] != method_name(Method::Post)[0]);
            assert(method_name(Method::Head).len() != method_name(Method::Put).len() || method_name(Method::Head)[0] != method_name(Method::Put)[0]);
            assert(method_name(Method::Head).len() != method_name(Method::Delete).len() || method_name(Method::Head)[0] != method_name(Method::Delete)[0]);
            assert(method_name(Method::Head).len() != method_name(Method::Options).len() || method_name(Method::Head)[0] != method_name(Method::Options)[0]);
        },
        Method::Trace => {
            assert(method_name(Method::Trace).len() != method_name(Method::Get).len() || method_name(Method::Trace)[0] != method_name(Method::Get)[0]);
            assert(method_name(Method::Trace).len() != method_name(Method::Post).len() || method_name(Method::Trace)[0] != method_name(Method::Post)[0]);
            assert(method_name(Method::Trace).len() != method_name(Method::Put).len() || method_name(Method::Trace)[0] != method_name(Method::Put)[0]);
            assert(method_name(Method::Trace).len() != method_name(Method::Delete).len() || method_name(Method::Trace)[0] != method_name(Method::Delete)[0]);
            assert(method_name(Method::Trace).len() != method_name(Method::Options).len() || method_name(Method::Trace)[0] != method_name(Method::Options)[0]);
            assert(method_name(Method::Trace).len() != method_name(Method::Head).len() || method_name(Method::Trace)[0] != method_name(Method::Head)[0]);
        },
        Method::Connect => {
            assert(method_name(Method::Connect).len() != method_name(Method::Get).len() || method_name(Method::Connect)[0] != method_name(Method::Get)[0]);
            assert(method_name(Method::Connect).len() != method_name(Method::Post).len() || method_name(Method::Connect)[0] != method_name(Method::Post)[0]);
            assert(method_name(Method::Connect).len() != method_name(Method::Put).len() || method_name(Method::Connect)[0] != method_name(Method::Put)[0]);
            assert(method_name(Method::Connect).len() != method_name(Method::Delete).len() || method_name(Method::Connect)[0] != method_name(Method::Delete)[0]);
            assert(method_name(Method::Connect).len() != method_name(Method::Options).len() || method_name(Method::Connect)[0] != method_name(Method::Options)[0]);
            assert(method_name(Method::Connect).len() != method_name(Method::Head).len() || method_name(Method::Connect)[0] != method_name(Method::Head)[0]);
            assert(method_name(Method::Connect).len() != method_name(Method::Trace).len() || method_name(Method::Connect)[0] != method_name(Method::Trace)[0]);
        },
        Method::Patch => {
            assert(method_name(Method::Patch).len() != method_name(Method::Get).len() || method_name(Method::Patch)[0] != method_name(Method::Get)[0]);
            assert(method_name(Method::Patch).len() != method_name(Method::Post).len() || method_name(Method::Patch)[0] != method_name(Method::Post)[0]);
            assert(method_name(Method::Patch).len() != method_name(Method::Put).len() || method_name(Method::Patch)[0] != method_name(Method::Put)[0]);
            assert(method_name(Method::Patch).len() != method_name(Method::Delete).len() || method_name(Method::Patch)[0] != method_name(Method::Delete)[0]);
            assert(method_name(Method::Patch).len() != method_name(Method::Options).len() || method_name(Method::Patch)[0] != method_name(Method::Options)[0]);
            assert(method_name(Method::Patch).len() != method_name(Method::Head).len() || method_name(Method::Patch)[0] != method_name(Method::Head)[0]);
            assert(method_name(Method::Patch).len() != method_name(Method::Trace).len() || method_name(Method::Patch)[0] != method_name(Method::Trace)[0]);
            assert(method_name(Method::Patch).len() != method_name(Method::Connect).len() || method_name(Method::Patch)[0] != method_name(Method::Connect)[0]);
        },
    }
}

/// A method's name is a non-empty run of upper-case letters.
pub proof fn lemma_method_name_letters(m: Method)
    ensures
        method_name(m).len() > 0,
        forall|k: int| 0 <= k < method_name(m).len() ==> 65 <= #[trigger] method_name(m)[k] <= 90,
{
}

impl Method {
    /// Decodes a request-line token; the match is exact and case-sensitive.
    pub fn from_bytes(token: &[u8]) -> (r: Result<Method, HttpError>)
        ensures
            r == (match method_of(token@) {
                Some(m) => Ok(m),
                None => Err(HttpError::InvalidMethod),
            }),
    {
        let name: Vec<u8> = vec![71, 69, 84];
        if bytes_eq(token, name.as_slice()) {
            return Ok(Method::Get);
        }
        let name: Vec<u8> = vec![80, 79, 83, 84];
        if bytes_eq(token, name.as_slice()) {
            return Ok(Method::Post);
        }
        let name: Vec<u8> = vec![80, 85, 84];
        if bytes_eq(token, name.as_slice()) {
            return Ok(Method::Put);
        }
        let name: Vec<u8> = vec![68, 69, 76, 69, 84, 69];
        if bytes_eq(token, name.as_slice()) {
            return Ok(Method::Delete);
        }
        let name: Vec<u8> = vec![79, 80, 84, 73, 79, 78, 83];
        if bytes_eq(token, name.as_slice()) {
            return Ok(Method::Options);
        }
        let name: Vec<u8> = vec![72, 69, 65, 68];
        if bytes_eq(token, name.as_slice()) {
            return Ok(Method::Head);
        }
        let name: Vec<u8> = vec![84, 82, 65, 67, 69];
        if bytes_eq(token, name.as_slice()) {
            return Ok(Method::Trace);
        }
        let name: Vec<u8> = vec![67, 79, 78, 78, 69, 67, 84];
        if bytes_eq(token, name.as_slice()) {
            return Ok(Method::Connect);
        }
        let name: Vec<u8> = vec![80, 65, 84, 67, 72];
        if bytes_eq(token, name.as_slice()) {
            return Ok(Method::Patch);
        }
        Err(HttpError::InvalidMethod)
    }

    /// The canonical upper-case name, used verbatim in request lines.
    pub fn to_bytes(&self) -> (r: Vec<u8>)
        ensures
            r@ == method_name(*self),
    {
        match self {
            Method::Get => vec![71, 69, 84],
            Method::Post => vec![80, 79, 83, 84],
            Method::Put => vec![80, 85, 84],
            Method::Delete => vec![68, 69, 76, 69, 84, 69],
            Method::Options => vec![79, 80, 84, 73, 79, 78, 83],
            Method::Head => vec![72, 69, 65, 68],
            Method::Trace => vec![84, 82, 65, 67, 69],
            Method::Connect => vec![67, 79, 78, 78, 69, 67, 84],
            Method::Patch => vec![80, 65, 84, 67, 72],
        }
    }
}

} // verus!
