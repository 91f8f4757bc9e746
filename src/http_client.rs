use vstd::prelude::*;

use crate::error::HttpError;
use crate::headers::Headers;
use crate::http_request::HttpRequest;
use crate::scan::{find_byte, index_of_byte, LF};
use crate::url::{host_of, port_of};

verus! {

/// The port a target without one is reached on.
pub const DEFAULT_PORT: u16 = 80;

/// Forwards requests upstream, one connection per request.
pub struct HTTPClient {
    pub default_headers: Headers,
}

impl HTTPClient {
    /// A client with the given default headers.
    pub fn new(default_headers: Headers) -> (r: HTTPClient)
        ensures
            r.default_headers == default_headers,
    {
        HTTPClient { default_headers }
    }
}

/// The host name and port a request is forwarded to.
pub fn upstream_address(request: &HttpRequest) -> (r: (Vec<u8>, u16))
    ensures
        r.0@ == host_of(request.url.authority@),
        r.1 == match port_of(request.url.authority@) {
            Some(p) => p,
            None => DEFAULT_PORT,
        },
{
    (request.url.host(), request.url.port_or_default(DEFAULT_PORT))
}

/// The address a request goes to: the first that name resolution returned.
pub fn resolved_address<T: Copy>(addrs: &Vec<T>) -> (r: Result<T, HttpError>)
    ensures
        addrs@.len() == 0 ==> r == Err::<T, HttpError>(HttpError::ResolutionFailure),
        addrs@.len() > 0 ==> r == Ok::<T, HttpError>(addrs@[0]),
{
    if addrs.len() == 0 {
        Err(HttpError::ResolutionFailure)
    } else {
        Ok(addrs[0])
    }
}

/// A write of `written` bytes out of `expected` succeeded only if it was whole.
pub fn check_written(written: usize, expected: usize) -> (r: Result<(), HttpError>)
    ensures
        r is Ok <==> written == expected,
        r is Err ==> r == Err::<(), HttpError>(HttpError::WriteFailure),
{
    if written == expected {
        Ok(())
    } else {
        Err(HttpError::WriteFailure)
    }
}

/// Whether a parse of `input` that failed with `e` may succeed once more bytes
/// arrive: the header block or the body was cut short, or the first line has
/// not ended yet.
pub fn needs_more_input(input: &[u8], e: HttpError) -> (r: bool)
    ensures
        r == (e == HttpError::UnterminatedHead || e == HttpError::TruncatedBody || index_of_byte(
            input@,
            0,
            LF,
        ) == input@.len()),
{
    match e {
        HttpError::UnterminatedHead | HttpError::TruncatedBody => true,
        _ => find_byte(input, 0, LF) == input.len(),
    }
}

} // verus!
