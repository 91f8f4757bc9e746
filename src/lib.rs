use vstd::prelude::*;

pub mod bytes;
pub mod codec;
pub mod error;
pub mod handler;
pub mod headers;
pub mod http_client;
pub mod http_request;
pub mod http_response;
pub mod method;
pub mod scan;
pub mod url;
pub mod status_code;

verus! {

} // verus!
