use vstd::prelude::*;

use crate::bytes::{copy_range, has_prefix, starts_with};
use crate::error::HttpError;
use crate::scan::{all_digits, check_digits, decimal_at_most, decimal_value, find_byte, index_of_byte};

verus! {

/// A URL as (scheme, authority, path).
pub type UrlView = (Seq<u8>, Seq<u8>, Seq<u8>);

/// `http`
pub open spec fn http_scheme() -> Seq<u8> {
    seq![104, 116, 116, 112]
}

/// `https`
pub open spec fn https_scheme() -> Seq<u8> {
    seq![104, 116, 116, 112, 115]
}

/// `://`
pub open spec fn scheme_separator() -> Seq<u8> {
    seq![58, 47, 47]
}

/// The target spells an absolute `http://` or `https://` URL.
pub open spec fn is_absolute_form(t: Seq<u8>) -> bool {
    starts_with(t, http_scheme() + scheme_separator()) || starts_with(
        t,
        https_scheme() + scheme_separator(),
    )
}

/// What the url crate reads from the text `t` as (scheme, authority, path):
/// the authority is the host, with `:port` when the URL names a port other
/// than its scheme's default; the path leaves out any query and fragment.
pub uninterp spec fn url_components(t: Seq<u8>) -> Option<UrlView>;

/// What parsing `t` as an absolute URL gives.
pub open spec fn parse_absolute_spec(t: Seq<u8>) -> Result<UrlView, HttpError> {
    if !is_absolute_form(t) {
        Err(HttpError::InvalidTarget)
    } else {
        match url_components(t) {
            Some(u) => if u.1.len() == 0 {
                Err(HttpError::InvalidTarget)
            } else {
                Ok(u)
            },
            None => Err(HttpError::InvalidTarget),
        }
    }
}

/// Relies on `url::Url::parse` and the `scheme`, `host_str`, `port` and
/// `path` accessors of its result: the parts of the URL that `t` spells, or
/// none when `t` is not UTF-8 or does not parse as a URL with a host.
#[verifier::external_body]
fn url_parts(t: &[u8]) -> (r: Option<(Vec<u8>, Vec<u8>, Vec<u8>)>)
    ensures
        match r {
            Some(p) => url_components(t@) == Some((p.0@, p.1@, p.2@)),
            None => url_components(t@) is None,
        },
{
    let u = url::Url::parse(std::str::from_utf8(t).ok()?).ok()?;
    let host = u.host_str()?;
    let authority = match u.port() {
        Some(port) => format!("{}:{}", host, port),
        None => host.to_string(),
    };
    Some((u.scheme().as_bytes().to_vec(), authority.into_bytes(), u.path().as_bytes().to_vec()))
}

/// The part of an authority before its first `:`.
pub open spec fn host_of(authority: Seq<u8>) -> Seq<u8> {
    authority.subrange(0, index_of_byte(authority, 0, 58))
}

/// The port that an authority names after its first `:`, if it names one
/// that fits in 16 bits.
pub open spec fn port_of(authority: Seq<u8>) -> Option<u16> {
    let k = index_of_byte(authority, 0, 58);
    let digits = authority.subrange(k + 1, authority.len() as int);
    if k < authority.len() && digits.len() > 0 && all_digits(digits) && decimal_value(digits)
        <= 65535 {
        Some(decimal_value(digits) as u16)
    } else {
        None
    }
}

/// An absolute URL, held as the three parts the proxy reads.
#[derive(Debug, Clone, PartialEq, Eq)]
pub struct Url {
    pub scheme: Vec<u8>,
    pub authority: Vec<u8>,
    pub path: Vec<u8>,
}

impl Url {
    pub open spec fn view(&self) -> UrlView {
        (self.scheme@, self.authority@, self.path@)
    }

    /// Builds a URL from its parts.
    pub fn new(scheme: Vec<u8>, authority: Vec<u8>, path: Vec<u8>) -> (r: Url)
        ensures
            r@ == (scheme@, authority@, path@),
    {
        Url { scheme, authority, path }
    }

    /// Parses an absolute `http://` or `https://` URL with the url crate; a
    /// URL without a host is refused.
    pub fn parse_absolute(t: &[u8]) -> (r: Result<Url, HttpError>)
        ensures
            match r {
                Ok(u) => parse_absolute_spec(t@) == Ok::<UrlView, HttpError>(u@),
                Err(e) => parse_absolute_spec(t@) == Err::<UrlView, HttpError>(e),
            },
    {
        if !is_absolute_target(t) {
            return Err(HttpError::InvalidTarget);
        }
        match url_parts(t) {
            None => Err(HttpError::InvalidTarget),
            Some((scheme, authority, path)) => {
                if authority.len() == 0 {
                    return Err(HttpError::InvalidTarget);
                }
                Ok(Url { scheme, authority, path })
            },
        }
    }

    /// The host: the authority up to its first `:`.
    pub fn host(&self) -> (r: Vec<u8>)
        ensures
            r@ == host_of(self.authority@),
    {
        let k = find_byte(self.authority.as_slice(), 0, 58);
        copy_range(self.authority.as_slice(), 0, k)
    }

    /// The port named in the authority, or `default` when it names none.
    pub fn port_or_default(&self, default: u16) -> (r: u16)
        ensures
            r == match port_of(self.authority@) {
                Some(p) => p,
                None => default,
            },
    {
        let a = self.authority.as_slice();
        let k = find_byte(a, 0, 58);
        if k >= a.len() {
            return default;
        }
        let digits = copy_range(a, k + 1, a.len());
        if digits.len() == 0 || !check_digits(digits.as_slice()) {
            return default;
        }
        match decimal_at_most(digits.as_slice(), 65535) {
            Some(v) => v as u16,
            None => default,
        }
    }
}

/// Whether `t` begins with `http://` or `https://`.
pub fn is_absolute_target(t: &[u8]) -> (r: bool)
    ensures
        r == is_absolute_form(t@),
{
    let http_prefix: Vec<u8> = vec![104, 116, 116, 112, 58, 47, 47];
    let https_prefix: Vec<u8> = vec![104, 116, 116, 112, 115, 58, 47, 47];
    assert(http_prefix@ =~= http_scheme() + scheme_separator());
    assert(https_prefix@ =~= https_scheme() + scheme_separator());
    has_prefix(t, http_prefix.as_slice()) || has_prefix(t, https_prefix.as_slice())
}

} // verus!
