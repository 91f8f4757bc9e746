use vstd::prelude::*;

use crate::bytes::{bytes_eq, copy_range};
use crate::codec::content_length_name;
use crate::error::HttpError;
use crate::headers::Headers;
use crate::http_request::{parse_request_spec, HttpRequest};
use crate::http_response::HttpResponse;
use crate::status_code::StatusCode;

verus! {

/// `/health`
pub open spec fn health_path() -> Seq<u8> {
    seq![47, 104, 101, 97, 108, 116, 104]
}

/// `/favicon.ico`
pub open spec fn favicon_path() -> Seq<u8> {
    seq![47, 102, 97, 118, 105, 99, 111, 110, 46, 105, 99, 111]
}

/// `p` occurs somewhere in `s`.
pub open spec fn contains_bytes(s: Seq<u8>, p: Seq<u8>) -> bool {
    exists|i: int| 0 <= i <= s.len() - p.len() && #[trigger] s.subrange(i, i + p.len()) == p
}

/// A path the proxy answers itself instead of forwarding.
pub open spec fn is_local_path(path: Seq<u8>) -> bool {
    contains_bytes(path, health_path()) || contains_bytes(path, favicon_path())
}

/// `OK`
pub open spec fn ok_body() -> Seq<u8> {
    seq![79, 75]
}

/// `Bad Request`
pub open spec fn bad_request_body() -> Seq<u8> {
    seq![66, 97, 100, 32, 82, 101, 113, 117, 101, 115, 116]
}

/// The response to a health check: 200, `Content-Length: 2`, body `OK`.
pub open spec fn is_health_response(r: HttpResponse) -> bool {
    &&& r.status_code == StatusCode::OK
    &&& r.headers@ == Map::<Seq<u8>, Seq<u8>>::empty().insert(content_length_name(), seq![50u8])
    &&& r.body@ == ok_body()
}

/// A response with `status` and body `Bad Request`, and no headers.
pub open spec fn is_error_response(r: HttpResponse, status: StatusCode) -> bool {
    &&& r.status_code == status
    &&& r.headers@ == Map::<Seq<u8>, Seq<u8>>::empty()
    &&& r.body@ == bad_request_body()
}

/// What the connection handler does with one inbound request.
pub enum Step {
    /// Answer at once with this response.
    Reply(HttpResponse),
    /// Hand this request to the proxy engine.
    Forward(HttpRequest),
}

/// Whether `p` occurs in `s`.
pub fn find_bytes(s: &[u8], p: &[u8]) -> (r: bool)
    ensures
        r == contains_bytes(s@, p@),
{
    if p.len() > s.len() {
        return false;
    }
    let mut i: usize = 0;
    while i <= s.len() - p.len()
        invariant
            p@.len() <= s@.len(),
            i <= s@.len() - p@.len(),
            forall|k: int| 0 <= k < i ==> #[trigger] s@.subrange(k, k + p@.len()) != p@,
        decreases s@.len() - p@.len() + 1 - i,
    {
        let window = copy_range(s, i, i + p.len());
        if bytes_eq(window.as_slice(), p) {
            return true;
        }
        if i == s.len() - p.len() {
            return false;
        }
        i = i + 1;
    }
    false
}

/// The fixed response to a health check.
pub fn health_response() -> (r: HttpResponse)
    ensures
        is_health_response(r),
        r.headers.wf(),
{
    let mut headers = Headers::new();
    let name: Vec<u8> = vec![67, 111, 110, 116, 101, 110, 116, 45, 76, 101, 110, 103, 116, 104];
    assert(name@ =~= content_length_name());
    let value: Vec<u8> = vec![50];
    assert(value@ =~= seq![50u8]);
    headers.insert(name, value);
    let r = HttpResponse::new(StatusCode::OK, headers, vec![79, 75]);
    assert(r.headers@ =~= Map::<Seq<u8>, Seq<u8>>::empty().insert(content_length_name(), seq![50u8]));
    r
}

/// A response with `status`, no headers and body `Bad Request`.
pub fn error_response(status: StatusCode) -> (r: HttpResponse)
    ensures
        is_error_response(r, status),
        r.headers.wf(),
{
    HttpResponse::new(
        status,
        Headers::new(),
        vec![66, 97, 100, 32, 82, 101, 113, 117, 101, 115, 116],
    )
}

/// Decides what to do with the bytes of one inbound request: a request that
/// does not parse gets a 400; a path holding `/health` or `/favicon.ico` gets
/// the health response; anything else goes to the proxy engine.
pub fn route(input: &[u8]) -> (r: Step)
    ensures
        match parse_request_spec(input@) {
            Err(_) => r matches Step::Reply(resp) && is_error_response(
                resp,
                StatusCode::InvalidRequest,
            ),
            Ok(m) => if is_local_path(m.url.2) {
                r matches Step::Reply(resp) && is_health_response(resp)
            } else {
                r matches Step::Forward(q) && q.model() == m && q.headers.wf()
            },
        },
{
    match HttpRequest::from_bytes(input) {
        Err(_) => Step::Reply(error_response(StatusCode::InvalidRequest)),
        Ok(q) => {
            let health: Vec<u8> = vec![47, 104, 101, 97, 108, 116, 104];
            let favicon: Vec<u8> = vec![47, 102, 97, 118, 105, 99, 111, 110, 46, 105, 99, 111];
            assert(health@ =~= health_path());
            assert(favicon@ =~= favicon_path());
            if find_bytes(q.url.path.as_slice(), health.as_slice()) || find_bytes(
                q.url.path.as_slice(),
                favicon.as_slice(),
            ) {
                Step::Reply(health_response())
            } else {
                Step::Forward(q)
            }
        },
    }
}

/// The response sent back once the proxy engine is done: its response, or a
/// 500 when it failed.
pub fn after_proxy(result: Result<HttpResponse, HttpError>) -> (r: HttpResponse)
    ensures
        match result {
            Ok(resp) => r == resp,
            Err(_) => is_error_response(r, StatusCode::InternalServerError),
        },
{
    match result {
        Ok(resp) => resp,
        Err(_) => error_response(StatusCode::InternalServerError),
    }
}

} // verus!
