use vstd::prelude::*;

use crate::error::HttpError;

verus! {

/// The closed set of HTTP status codes this proxy understands.
#[derive(Debug, Clone, Copy, PartialEq, Eq, Structural)]
pub enum StatusCode {
    /// 200 OK
    OK,
    /// 301 Moved Permanently
    MovedPermanently,
    /// 302 Found
    Found,
    /// 404 Not Found
    NotFound,
    /// 400 Invalid Request
    InvalidRequest,
    /// 401 Unauthorized
    Unauthorized,
    /// 403 Forbidden
    Forbidden,
    /// 405 Method Not Allowed
    MethodNotAllowed,
    /// 406 Not Acceptable
    NotAcceptable,
    /// 500 Internal Server Error
    InternalServerError,
    /// 501 Not Implemented
    NotImplemented,
    /// 502 Bad Gateway
    BadGateway,
}

/// The numeric code of each member.
pub open spec fn code_of(s: StatusCode) -> u32 {
    match s {
        StatusCode::OK => 200,
        StatusCode::MovedPermanently => 301,
        StatusCode::Found => 302,
        StatusCode::NotFound => 404,
        StatusCode::InvalidRequest => 400,
        StatusCode::Unauthorized => 401,
        StatusCode::Forbidden => 403,
        StatusCode::MethodNotAllowed => 405,
        StatusCode::NotAcceptable => 406,
        StatusCode::InternalServerError => 500,
        StatusCode::NotImplemented => 501,
        StatusCode::BadGateway => 502,
    }
}

/// Whether `n` lies in the range of well-formed status codes.
pub open spec fn in_status_range(n: u32) -> bool {
    100 <= n <= 599
}

/// The member whose code is `n`, if any.
pub open spec fn status_from_code(n: u32) -> Option<StatusCode> {
    match n {
        200 => Some(StatusCode::OK),
        301 => Some(StatusCode::MovedPermanently),
        302 => Some(StatusCode::Found),
        404 => Some(StatusCode::NotFound),
        400 => Some(StatusCode::InvalidRequest),
        401 => Some(StatusCode::Unauthorized),
        403 => Some(StatusCode::Forbidden),
        405 => Some(StatusCode::MethodNotAllowed),
        406 => Some(StatusCode::NotAcceptable),
        500 => Some(StatusCode::InternalServerError),
        501 => Some(StatusCode::NotImplemented),
        502 => Some(StatusCode::BadGateway),
        _ => None,
    }
}

/// The reason phrase of each member, as ASCII bytes.
pub open spec fn reason_of(s: StatusCode) -> Seq<u8> {
    match s {
        StatusCode::OK => seq![79, 75],
        StatusCode::MovedPermanently => seq![
            77, 111, 118, 101, 100, 32, 80, 101, 114, 109, 97, 110, 101, 110,
            116, 108, 121,
        ],
        StatusCode::Found => seq![70, 111, 117, 110, 100],
        StatusCode::NotFound => seq![78, 111, 116, 32, 70, 111, 117, 110, 100],
        StatusCode::InvalidRequest => seq![
            73, 110, 118, 97, 108, 105, 100, 32, 82, 101, 113, 117, 101, 115,
            116,
        ],
        StatusCode::Unauthorized => seq![
            85, 110, 97, 117, 116, 104, 111, 114, 105, 122, 101, 100,
        ],
        StatusCode::Forbidden => seq![70, 111, 114, 98, 105, 100, 100, 101, 110],
        StatusCode::MethodNotAllowed => seq![
            77, 101, 116, 104, 111, 100, 32, 78, 111, 116, 32, 65, 108, 108,
            111, 119, 101, 100,
        ],
        StatusCode::NotAcceptable => seq![
            78, 111, 116, 32, 65, 99, 99, 101, 112, 116, 97, 98, 108, 101,
        ],
        StatusCode::InternalServerError => seq![
            73, 110, 116, 101, 114, 110, 97, 108, 32, 83, 101, 114, 118, 101,
            114, 32, 69, 114, 114, 111, 114,
        ],
        StatusCode::NotImplemented => seq![
            78, 111, 116, 32, 73, 109, 112, 108, 101, 109, 101, 110, 116, 101,
            100,
        ],
        StatusCode::BadGateway => seq![66, 97, 100, 32, 71, 97, 116, 101, 119, 97, 121],
    }
}

/// A reason phrase is printable ASCII: spaces and letters.
pub proof fn lemma_reason_printable(s: StatusCode)
    ensures
        forall|k: int| 0 <= k < reason_of(s).len() ==> 32 <= #[trigger] reason_of(s)[k] <= 122,
{
}

impl StatusCode {
    /// Looks up the member with code `status_code`. Codes outside 100..=599 are
    /// invalid; codes inside it that no member has are unknown.
    pub fn from_u32(status_code: u32) -> (r: Result<StatusCode, HttpError>)
        ensures
            r == match status_from_code(status_code) {
                Some(s) => Ok(s),
                None => if in_status_range(status_code) {
                    Err(HttpError::UnknownStatusCode)
                } else {
                    Err(HttpError::InvalidStatusCode)
                },
            },
    {
        let r = match status_code {
            200 => Ok(StatusCode::OK),
            301 => Ok(StatusCode::MovedPermanently),
            302 => Ok(StatusCode::Found),
            400 => Ok(StatusCode::InvalidRequest),
            404 => Ok(StatusCode::NotFound),
            401 => Ok(StatusCode::Unauthorized),
            403 => Ok(StatusCode::Forbidden),
            405 => Ok(StatusCode::MethodNotAllowed),
            406 => Ok(StatusCode::NotAcceptable),
            500 => Ok(StatusCode::InternalServerError),
            501 => Ok(StatusCode::NotImplemented),
            502 => Ok(StatusCode::BadGateway),
            _ => {
                if status_code < 100 || status_code > 599 {
                    Err(HttpError::InvalidStatusCode)
                } else {
                    Err(HttpError::UnknownStatusCode)
                }
            },
        };
        r
    }

    /// The reason phrase, as ASCII bytes.
    pub fn to_reason_phrase(&self) -> (r: Vec<u8>)
        ensures
            r@ == reason_of(*self),
    {
        match self {
            StatusCode::OK => vec![79, 75],
            StatusCode::MovedPermanently => vec![
                77, 111, 118, 101, 100, 32, 80, 101, 114, 109, 97, 110, 101,
                110, 116, 108, 121,
            ],
            StatusCode::Found => vec![70, 111, 117, 110, 100],
            StatusCode::NotFound => vec![78, 111, 116, 32, 70, 111, 117, 110, 100],
            StatusCode::InvalidRequest => vec![
                73, 110, 118, 97, 108, 105, 100, 32, 82, 101, 113, 117, 101,
                115, 116,
            ],
            StatusCode::Unauthorized => vec![
                85, 110, 97, 117, 116, 104, 111, 114, 105, 122, 101, 100,
            ],
            StatusCode::Forbidden => vec![70, 111, 114, 98, 105, 100, 100, 101, 110],
            StatusCode::MethodNotAllowed => vec![
                77, 101, 116, 104, 111, 100, 32, 78, 111, 116, 32, 65, 108,
                108, 111, 119, 101, 100,
            ],
            StatusCode::NotAcceptable => vec![
                78, 111, 116, 32, 65, 99, 99, 101, 112, 116, 97, 98, 108,
                101,
            ],
            StatusCode::InternalServerError => vec![
                73, 110, 116, 101, 114, 110, 97, 108, 32, 83, 101, 114, 118,
                101, 114, 32, 69, 114, 114, 111, 114,
            ],
            StatusCode::NotImplemented => vec![
                78, 111, 116, 32, 73, 109, 112, 108, 101, 109, 101, 110, 116,
                101, 100,
            ],
            StatusCode::BadGateway => vec![
                66, 97, 100, 32, 71, 97, 116, 101, 119, 97, 121,
            ],
        }
    }

    /// The numeric code.
    pub fn to_u32(&self) -> (r: u32)
        ensures
            r == code_of(*self),
    {
        match self {
            StatusCode::OK => 200,
            StatusCode::MovedPermanently => 301,
            StatusCode::Found => 302,
            StatusCode::InvalidRequest => 400,
            StatusCode::NotFound => 404,
            StatusCode::Unauthorized => 401,
            StatusCode::Forbidden => 403,
            StatusCode::MethodNotAllowed => 405,
            StatusCode::NotAcceptable => 406,
            StatusCode::InternalServerError => 500,
            StatusCode::NotImplemented => 501,
            StatusCode::BadGateway => 502,
        }
    }
}

/// Each member is what its own code converts to.
pub proof fn lemma_code_round_trip(s: StatusCode)
    ensures
        status_from_code(code_of(s)) == Some(s),
{
    match s {
        StatusCode::OK => {},
        StatusCode::MovedPermanently => {},
        StatusCode::Found => {},
        StatusCode::NotFound => {},
        StatusCode::InvalidRequest => {},
        StatusCode::Unauthorized => {},
        StatusCode::Forbidden => {},
        StatusCode::MethodNotAllowed => {},
        StatusCode::NotAcceptable => {},
        StatusCode::InternalServerError => {},
        StatusCode::NotImplemented => {},
        StatusCode::BadGateway => {},
    }
}

/// Status codes outside 100..=599, and codes inside it that no member has,
/// are refused; every code that is accepted converts back to itself, and
/// every member is what its own code converts to.
pub proof fn lemma_status_round_trip(n: u32)
    ensures
        !in_status_range(n) ==> status_from_code(n) is None,
        status_from_code(n) matches Some(s) ==> code_of(s) == n,
        forall|s: StatusCode| #[trigger] code_of(s) == n ==> status_from_code(n) == Some(s),
{
    assert forall|s: StatusCode| #[trigger] code_of(s) == n implies status_from_code(n) == Some(
        s,
    ) by {
        lemma_code_round_trip(s);
    }
}

} // verus!
