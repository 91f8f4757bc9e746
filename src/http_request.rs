use vstd::prelude::*;

use crate::bytes::{append_bytes, copy_range};
use crate::codec::{
    all_wire_safe, body_framed, lemma_header_block_of,
    crlf, find_start_tokens, header_block, host_name, line_text_end, message_body, parse_body,
    parse_header_block, render_headers, render_lines, concat_lines, start_tokens,
};
use crate::error::HttpError;
use crate::headers::{header_map, Headers};
use crate::method::{lemma_method_name_letters, lemma_method_names_distinct, method_name, method_of, Method};
use crate::scan::{
    find_byte, index_of_byte, is_space, lemma_index_run, lemma_spaces_run, lemma_token_run, line_text,
    LF,
};
use vstd::string::StringSliceAdditionalSpecFns;

use crate::url::{http_scheme, is_absolute_form, is_absolute_target, parse_absolute_spec, Url, UrlView};

verus! {

/// What a request holds, as mathematical values.
pub struct RequestModel {
    pub method: Method,
    pub url: UrlView,
    pub headers: Map<Seq<u8>, Seq<u8>>,
    pub body: Seq<u8>,
}

/// The method and raw target of a request line.
pub open spec fn request_line(c: Seq<u8>) -> Result<(Method, Seq<u8>), HttpError> {
    let (a0, b0, a1, b1, a2) = start_tokens(c);
    if a0 >= c.len() {
        Err(HttpError::MissingToken)
    } else {
        match method_of(c.subrange(a0, b0)) {
            None => Err(HttpError::InvalidMethod),
            Some(m) => if a1 >= c.len() || a2 >= c.len() {
                Err(HttpError::MissingToken)
            } else {
                Ok((m, c.subrange(a1, b1)))
            },
        }
    }
}

/// The absolute URL a request target names: an `http(s)://` target is taken as
/// it is; a path is resolved against the `Host` header with scheme `http`.
pub open spec fn resolve_target(t: Seq<u8>, m: Map<Seq<u8>, Seq<u8>>) -> Result<
    UrlView,
    HttpError,
> {
    if is_absolute_form(t) {
        parse_absolute_spec(t)
    } else if !m.contains_key(host_name()) {
        Err(HttpError::MissingHostHeader)
    } else if t.len() == 0 || t[0] != 47 || m[host_name()].len() == 0 {
        Err(HttpError::InvalidTarget)
    } else {
        Ok((http_scheme(), m[host_name()], t))
    }
}

/// What parsing `s` as a request gives: the request line, the header block,
/// the target resolved to a URL, then the body.
pub open spec fn parse_request_spec(s: Seq<u8>) -> Result<RequestModel, HttpError> {
    let j0 = index_of_byte(s, 0, LF);
    match request_line(line_text(s, 0, j0)) {
        Err(e) => Err(e),
        Ok((m, t)) => if j0 >= s.len() {
            Err(HttpError::UnterminatedHead)
        } else {
            match header_block(s, j0 + 1, Seq::empty()) {
                Err(e) => Err(e),
                Ok((pairs, b)) => match resolve_target(t, header_map(pairs)) {
                    Err(e) => Err(e),
                    Ok(u) => match message_body(s, b, header_map(pairs)) {
                        Err(e) => Err(e),
                        Ok(body) => Ok(
                            RequestModel { method: m, url: u, headers: header_map(pairs), body },
                        ),
                    },
                },
            }
        },
    }
}

/// ` HTTP/1.1\r\n`
pub open spec fn request_line_tail() -> Seq<u8> {
    seq![32, 72, 84, 84, 80, 47, 49, 46, 49, 13, 10]
}

/// An HTTP request.
#[derive(Debug, Clone)]
pub struct HttpRequest {
    pub method: Method,
    pub url: Url,
    pub headers: Headers,
    pub body: Vec<u8>,
}

impl HttpRequest {
    pub open spec fn model(&self) -> RequestModel {
        RequestModel {
            method: self.method,
            url: self.url@,
            headers: self.headers@,
            body: self.body@,
        }
    }

    /// The bytes `serialize` writes: the request line with the URL's path,
    /// each header in order, a blank line, the body and a final line ending.
    pub open spec fn wire(&self) -> Seq<u8> {
        method_name(self.method) + seq![32u8] + self.url.path@ + request_line_tail()
            + concat_lines(render_lines(self.headers.pairs())) + crlf() + self.body@ + crlf()
    }

    /// A request from its parts.
    pub fn new(method: Method, url: Url, headers: Headers, body: Vec<u8>) -> (r: HttpRequest)
        ensures
            r.method == method,
            r.url@ == url@,
            r.headers == headers,
            r.body@ == body@,
    {
        HttpRequest { method, url, headers, body }
    }

    /// Parses one request from the start of `s`; bytes past the body that
    /// `Content-Length` frames are ignored.
    pub fn from_bytes(s: &[u8]) -> (r: Result<HttpRequest, HttpError>)
        ensures
            match r {
                Ok(q) => q.headers.wf() && parse_request_spec(s@) == Ok::<RequestModel, HttpError>(
                    q.model(),
                ),
                Err(e) => parse_request_spec(s@) == Err::<RequestModel, HttpError>(e),
            },
    {
        let j0 = find_byte(s, 0, LF);
        let end = line_text_end(s, 0, j0);
        let line = copy_range(s, 0, end);
        let t = find_start_tokens(line.as_slice());
        if t.a0 >= line.len() {
            return Err(HttpError::MissingToken);
        }
        let token = copy_range(line.as_slice(), t.a0, t.b0);
        let method = match Method::from_bytes(token.as_slice()) {
            Ok(m) => m,
            Err(e) => {
                return Err(e);
            },
        };
        if t.a1 >= line.len() || t.a2 >= line.len() {
            return Err(HttpError::MissingToken);
        }
        let target = copy_range(line.as_slice(), t.a1, t.b1);
        if j0 >= s.len() {
            return Err(HttpError::UnterminatedHead);
        }
        let (headers, b) = match parse_header_block(s, j0 + 1) {
            Ok(hb) => hb,
            Err(e) => {
                return Err(e);
            },
        };
        let url = match resolve(target, &headers) {
            Ok(u) => u,
            Err(e) => {
                return Err(e);
            },
        };
        let body = match parse_body(s, b, &headers) {
            Ok(v) => v,
            Err(e) => {
                return Err(e);
            },
        };
        Ok(HttpRequest { method, url, headers, body })
    }

    /// Parses one request from the bytes of `s`.
    pub fn from_string(s: &str) -> (r: Result<HttpRequest, HttpError>)
        ensures
            match r {
                Ok(q) => q.headers.wf() && parse_request_spec(s.spec_bytes()) == Ok::<
                    RequestModel,
                    HttpError,
                >(q.model()),
                Err(e) => parse_request_spec(s.spec_bytes()) == Err::<RequestModel, HttpError>(e),
            },
    {
        HttpRequest::from_bytes(s.as_bytes())
    }

    /// The request in wire form, with the path alone as its target.
    pub fn serialize(&self) -> (r: Vec<u8>)
        ensures
            r@ == self.wire(),
    {
        let mut out = self.method.to_bytes();
        out.push(32);
        append_bytes(&mut out, self.url.path.as_slice());
        let tail: Vec<u8> = vec![32, 72, 84, 84, 80, 47, 49, 46, 49, 13, 10];
        append_bytes(&mut out, tail.as_slice());
        render_headers(&mut out, &self.headers);
        out.push(13);
        out.push(10);
        append_bytes(&mut out, self.body.as_slice());
        out.push(13);
        out.push(10);
        assert(out@ =~= self.wire());
        out
    }
}

/// Resolves a request target to an absolute URL.
fn resolve(target: Vec<u8>, headers: &Headers) -> (r: Result<Url, HttpError>)
    requires
        headers.wf(),
    ensures
        match r {
            Ok(u) => resolve_target(target@, headers@) == Ok::<UrlView, HttpError>(u@),
            Err(e) => resolve_target(target@, headers@) == Err::<UrlView, HttpError>(e),
        },
{
    if is_absolute_target(target.as_slice()) {
        return Url::parse_absolute(target.as_slice());
    }
    let host: Vec<u8> = vec![72, 111, 115, 116];
    assert(host@ =~= host_name());
    match headers.get(host.as_slice()) {
        None => Err(HttpError::MissingHostHeader),
        Some(h) => {
            if target.len() == 0 || target[0] != 47 || h.len() == 0 {
                return Err(HttpError::InvalidTarget);
            }
            Ok(Url { scheme: vec![104, 116, 116, 112], authority: h.clone(), path: target })
        },
    }
}

/// A request whose wire form reads back as the same request: its headers
/// read back as themselves, `Host` names the URL's non-empty authority, the
/// scheme is `http`, the path starts with `/` and holds no whitespace, and the
/// body is framed by `Content-Length`.
pub open spec fn survives_wire(q: HttpRequest) -> bool {
    &&& q.headers.wf()
    &&& all_wire_safe(q.headers.pairs())
    &&& q.url.scheme@ == http_scheme()
    &&& q.url.authority@.len() > 0
    &&& q.headers@.contains_key(host_name())
    &&& q.headers@[host_name()] == q.url.authority@
    &&& q.url.path@.len() > 0
    &&& q.url.path@[0] == 47
    &&& forall|k: int| 0 <= k < q.url.path@.len() ==> !is_space(#[trigger] q.url.path@[k])
    &&& body_framed(q.headers@, q.body@)
}

/// Parsing what `serialize` writes gives back the method, the URL, every
/// header and the body of the request.
pub proof fn lemma_request_round_trip(q: HttpRequest)
    requires
        survives_wire(q),
    ensures
        parse_request_spec(q.wire()) == Ok::<RequestModel, HttpError>(q.model()),
{
    let mm = method_name(q.method);
    let p = q.url.path@;
    let t = request_line_tail();
    let ps = q.headers.pairs();
    let r = concat_lines(render_lines(ps));
    let body = q.body@;
    let s = q.wire();
    let nm = mm.len() as int;
    let h = nm + 1 + p.len();
    let j0 = h + 10;
    lemma_method_name_letters(q.method);
    lemma_method_names_distinct(q.method);
    assert(s =~= mm + seq![32u8] + p + t + r + crlf() + body + crlf());
    assert forall|k: int| 0 <= k < j0 implies s[k] != LF by {
        if k < nm {
            assert(s[k] == mm[k]);
        } else if k == nm {
        } else if k < h {
            assert(s[k] == p[k - nm - 1]);
        } else {
            assert(s[k] == t[k - h]);
        }
    }
    assert(s[j0] == LF);
    lemma_index_run(s, 0, j0, LF);
    let c = line_text(s, 0, j0);
    assert(s[j0 - 1] == 13);
    let v = seq![32u8, 72, 84, 84, 80, 47, 49, 46, 49];
    assert(c =~= mm + seq![32u8] + p + v);
    assert(!is_space(c[0])) by {
        assert(c[0] == mm[0]);
    }
    lemma_spaces_run(c, 0, 0);
    assert forall|k: int| 0 <= k < nm implies !is_space(c[k]) by {
        assert(c[k] == mm[k]);
    }
    lemma_token_run(c, 0, nm);
    assert(c[nm + 1] == p[0]);
    lemma_spaces_run(c, nm, nm + 1);
    assert forall|k: int| nm + 1 <= k < h implies !is_space(c[k]) by {
        assert(c[k] == p[k - nm - 1]);
    }
    lemma_token_run(c, nm + 1, h);
    lemma_spaces_run(c, h, h + 1);
    assert(c.subrange(0, nm) =~= mm);
    assert(c.subrange(nm + 1, h) =~= p);
    assert(request_line(c) == Ok::<(Method, Seq<u8>), HttpError>((q.method, p)));
    let i = j0 + 1;
    assert(s.subrange(i, i + r.len() + 2) =~= r + crlf());
    lemma_header_block_of(s, i, Seq::empty(), ps);
    assert(Seq::<crate::headers::HeaderPair>::empty() + ps =~= ps);
    let b = i + r.len() + 2;
    assert(!is_absolute_form(p)) by {
        if p.len() >= 7 {
            assert(p.subrange(0, 7)[0] == p[0]);
        }
        if p.len() >= 8 {
            assert(p.subrange(0, 8)[0] == p[0]);
        }
    }
    assert(resolve_target(p, q.headers@) == Ok::<UrlView, HttpError>(q.url@));
    assert(s.subrange(b, b + body.len()) =~= body);
    assert(s.len() == b + body.len() + 2);
    if !q.headers@.contains_key(crate::codec::content_length_name()) {
        assert(body =~= Seq::<u8>::empty());
    }
    assert(message_body(s, b, q.headers@) == Ok::<Seq<u8>, HttpError>(body));
}

} // verus!
