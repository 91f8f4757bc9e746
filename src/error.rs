use vstd::prelude::*;

verus! {

/// Every way a message can fail to parse, or a proxied exchange can fail.
#[derive(Debug, Clone, Copy, PartialEq, Eq, Structural)]
pub enum HttpError {
    /// The start line lacks a token it needs.
    MissingToken,
    /// The request line names a method outside the known set.
    InvalidMethod,
    /// A status code that is not a number, or lies outside 100..=599.
    InvalidStatusCode,
    /// A status code inside 100..=599 that is not a known member.
    UnknownStatusCode,
    /// The status line's version is neither `HTTP/1.1` nor `HTTP/1.0`.
    UnsupportedVersion,
    /// A header line without a colon.
    MalformedHeader,
    /// The input ends before the blank line that closes the header block.
    UnterminatedHead,
    /// A `Content-Length` value that is not a decimal number that fits in `usize`.
    InvalidContentLength,
    /// Fewer body bytes are available than `Content-Length` declares.
    TruncatedBody,
    /// A relative request target with no `Host` header to resolve it against.
    MissingHostHeader,
    /// A request target that is neither an absolute `http(s)` URL nor a path.
    InvalidTarget,
    /// Name resolution returned no address.
    ResolutionFailure,
    /// The upstream connection could not be opened.
    ConnectFailure,
    /// Fewer bytes were written upstream than the serialized request holds.
    WriteFailure,
}

} // verus!
