use vstd::prelude::*;

use crate::bytes::{append_bytes, bytes_eq, copy_range};
use crate::codec::{
    all_wire_safe, body_framed, colon_space, lemma_header_block_of, lemma_header_line_of,
    wire_safe_pair,
    concat_lines, crlf, find_start_tokens, header_block, line_text_end, message_body, parse_body,
    parse_header_block, render_lines, render_pair, start_tokens, lemma_concat_lines_push,
};
use crate::error::HttpError;
use crate::headers::{
    header_map, lemma_consistent_header_map, unique_names, lemma_header_map, lemma_unique_header_map, HeaderPair,
    Headers,
};
use crate::scan::{
    is_space, lemma_index_run, lemma_spaces_run, lemma_token_run,
    all_digits, check_digits, decimal_at_most, decimal_value, find_byte, index_of_byte, line_text,
    LF,
};
use crate::status_code::{
    code_of, lemma_code_round_trip, lemma_reason_printable, reason_of, status_from_code, StatusCode,
};

verus! {

/// What a response holds, as mathematical values.
pub struct ResponseModel {
    pub status_code: StatusCode,
    pub headers: Map<Seq<u8>, Seq<u8>>,
    pub body: Seq<u8>,
}

/// `HTTP/1.1`
pub open spec fn version_1_1() -> Seq<u8> {
    seq![72, 84, 84, 80, 47, 49, 46, 49]
}

/// `HTTP/1.0`
pub open spec fn version_1_0() -> Seq<u8> {
    seq![72, 84, 84, 80, 47, 49, 46, 48]
}

/// The status that a status-code token names.
pub open spec fn status_token(t: Seq<u8>) -> Result<StatusCode, HttpError> {
    if t.len() == 0 || !all_digits(t) || decimal_value(t) < 100 || decimal_value(t) > 599 {
        Err(HttpError::InvalidStatusCode)
    } else {
        match status_from_code(decimal_value(t) as u32) {
            Some(s) => Ok(s),
            None => Err(HttpError::UnknownStatusCode),
        }
    }
}

/// The status that a status line gives: its version must be HTTP/1.1 or
/// HTTP/1.0, and its second token a known status code.
pub open spec fn status_line(c: Seq<u8>) -> Result<StatusCode, HttpError> {
    let (a0, b0, a1, b1, a2) = start_tokens(c);
    let version = c.subrange(a0, b0);
    if a0 >= c.len() {
        Err(HttpError::MissingToken)
    } else if version != version_1_1() && version != version_1_0() {
        Err(HttpError::UnsupportedVersion)
    } else if a1 >= c.len() {
        Err(HttpError::MissingToken)
    } else {
        status_token(c.subrange(a1, b1))
    }
}

/// What parsing `s` as a response gives: the status line, the header block,
/// then the body.
#[verifier::opaque]
pub open spec fn parse_response_spec(s: Seq<u8>) -> Result<ResponseModel, HttpError> {
    let j0 = index_of_byte(s, 0, LF);
    match status_line(line_text(s, 0, j0)) {
        Err(e) => Err(e),
        Ok(st) => if j0 >= s.len() {
            Err(HttpError::UnterminatedHead)
        } else {
            match header_block(s, j0 + 1, Seq::empty()) {
                Err(e) => Err(e),
                Ok((pairs, b)) => match message_body(s, b, header_map(pairs)) {
                    Err(e) => Err(e),
                    Ok(body) => Ok(
                        ResponseModel { status_code: st, headers: header_map(pairs), body },
                    ),
                },
            }
        },
    }
}

/// The three decimal digits of a status code.
pub open spec fn status_digits(n: u32) -> Seq<u8> {
    seq![(48 + n / 100) as u8, (48 + n / 10 % 10) as u8, (48 + n % 10) as u8]
}

/// `HTTP/1.1 <code> <reason>\r\n`
pub open spec fn status_line_bytes(st: StatusCode) -> Seq<u8> {
    version_1_1() + seq![32u8] + status_digits(code_of(st)) + seq![32u8] + reason_of(st) + crlf()
}

/// `a` orders before or equal to `b`, byte by byte, a prefix first.
pub open spec fn lex_le(a: Seq<u8>, b: Seq<u8>) -> bool
    decreases a.len(),
{
    if a.len() == 0 {
        true
    } else if b.len() == 0 {
        false
    } else if a[0] != b[0] {
        a[0] < b[0]
    } else {
        lex_le(a.drop_first(), b.drop_first())
    }
}

/// The lines of `l` are in ascending lexicographic order.
pub open spec fn sorted_lex(l: Seq<Seq<u8>>) -> bool {
    forall|i: int, j: int| 0 <= i < j < l.len() ==> lex_le(l[i], l[j])
}

/// The contents of each line of `v`.
pub open spec fn line_views(v: Seq<Vec<u8>>) -> Seq<Seq<u8>> {
    Seq::new(v.len(), |i: int| v[i]@)
}

/// `s` with every zero byte taken out.
pub open spec fn strip_nul(s: Seq<u8>) -> Seq<u8>
    decreases s.len(),
{
    if s.len() == 0 {
        s
    } else if s.last() == 0 {
        strip_nul(s.drop_last())
    } else {
        strip_nul(s.drop_last()).push(s.last())
    }
}

/// The bytes of a response whose header lines are written in the order `l`.
pub open spec fn response_wire(
    st: StatusCode,
    l: Seq<Seq<u8>>,
    body: Seq<u8>,
) -> Seq<u8> {
    strip_nul(status_line_bytes(st) + concat_lines(l) + crlf() + body)
}

/// Relies on `slice::sort`: it orders the elements ascending by `Ord`, which
/// compares `Vec<u8>` lexicographically, and only permutes them.
#[verifier::external_body]
fn sort_lines(lines: &mut Vec<Vec<u8>>)
    ensures
        sorted_lex(line_views(final(lines)@)),
        line_views(final(lines)@).to_multiset() == line_views(old(lines)@).to_multiset(),
{
    lines.sort();
}

/// A copy of `s` without its zero bytes.
pub fn strip_nul_bytes(s: &[u8]) -> (r: Vec<u8>)
    ensures
        r@ == strip_nul(s@),
{
    let mut r: Vec<u8> = Vec::new();
    let mut i: usize = 0;
    assert(s@.subrange(0, 0) =~= Seq::<u8>::empty());
    while i < s.len()
        invariant
            i <= s@.len(),
            r@ == strip_nul(s@.subrange(0, i as int)),
        decreases s@.len() - i,
    {
        assert(s@.subrange(0, i as int + 1).drop_last() =~= s@.subrange(0, i as int));
        if s[i] != 0 {
            r.push(s[i]);
        }
        i = i + 1;
    }
    assert(s@.subrange(0, i as int) =~= s@);
    r
}

/// An HTTP response.
#[derive(Debug, Clone)]
pub struct HttpResponse {
    pub status_code: StatusCode,
    pub headers: Headers,
    pub body: Vec<u8>,
}

impl HttpResponse {
    pub open spec fn model(&self) -> ResponseModel {
        ResponseModel { status_code: self.status_code, headers: self.headers@, body: self.body@ }
    }

    /// A response from its parts.
    pub fn new(status_code: StatusCode, headers: Headers, body: Vec<u8>) -> (r: HttpResponse)
        ensures
            r.status_code == status_code,
            r.headers == headers,
            r.body@ == body@,
    {
        HttpResponse { status_code, headers, body }
    }

    /// Parses one response from the start of `s`; bytes past the body that
    /// `Content-Length` frames are ignored.
    pub fn from_bytes(s: &[u8]) -> (r: Result<HttpResponse, HttpError>)
        ensures
            match r {
                Ok(q) => q.headers.wf() && parse_response_spec(s@) == Ok::<
                    ResponseModel,
                    HttpError,
                >(q.model()),
                Err(e) => parse_response_spec(s@) == Err::<ResponseModel, HttpError>(e),
            },
    {
        reveal(parse_response_spec);
        let j0 = find_byte(s, 0, LF);
        let end = line_text_end(s, 0, j0);
        let line = copy_range(s, 0, end);
        let t = find_start_tokens(line.as_slice());
        if t.a0 >= line.len() {
            return Err(HttpError::MissingToken);
        }
        let version = copy_range(line.as_slice(), t.a0, t.b0);
        let v11: Vec<u8> = vec![72, 84, 84, 80, 47, 49, 46, 49];
        let v10: Vec<u8> = vec![72, 84, 84, 80, 47, 49, 46, 48];
        assert(v11@ =~= version_1_1());
        assert(v10@ =~= version_1_0());
        if !bytes_eq(version.as_slice(), v11.as_slice()) && !bytes_eq(
            version.as_slice(),
            v10.as_slice(),
        ) {
            return Err(HttpError::UnsupportedVersion);
        }
        if t.a1 >= line.len() {
            return Err(HttpError::MissingToken);
        }
        let code = copy_range(line.as_slice(), t.a1, t.b1);
        let status_code = match parse_status_token(code.as_slice()) {
            Ok(st) => st,
            Err(e) => {
                return Err(e);
            },
        };
        if j0 >= s.len() {
            return Err(HttpError::UnterminatedHead);
        }
        let (headers, b) = match parse_header_block(s, j0 + 1) {
            Ok(hb) => hb,
            Err(e) => {
                return Err(e);
            },
        };
        let body = match parse_body(s, b, &headers) {
            Ok(v) => v,
            Err(e) => {
                return Err(e);
            },
        };
        Ok(HttpResponse { status_code, headers, body })
    }

    /// The response in wire form: the status line, the header lines sorted
    /// lexicographically, a blank line and the body, with zero bytes removed.
    pub fn serialize(&self) -> (r: Vec<u8>)
        ensures
            exists|l: Seq<Seq<u8>>|
                sorted_lex(l) && l.to_multiset() == render_lines(
                    self.headers.pairs(),
                ).to_multiset() && r@ == #[trigger] response_wire(self.status_code, l, self.body@),
    {
        let ghost ps = self.headers.pairs();
        let mut lines: Vec<Vec<u8>> = Vec::new();
        let mut i: usize = 0;
        assert(line_views(lines@) =~= render_lines(ps.subrange(0, 0)));
        while i < self.headers.len()
            invariant
                ps == self.headers.pairs(),
                i <= ps.len(),
                line_views(lines@) == render_lines(ps.subrange(0, i as int)),
            decreases ps.len() - i,
        {
            let (name, value) = self.headers.pair_at(i);
            let mut line: Vec<u8> = Vec::new();
            append_bytes(&mut line, name.as_slice());
            line.push(58);
            line.push(32);
            append_bytes(&mut line, value.as_slice());
            line.push(13);
            line.push(10);
            assert(line@ =~= render_pair(ps[i as int]));
            let ghost prev = lines@;
            assert(line_views(prev).len() == i);
            lines.push(line);
            assert(lines@ == prev.push(line));
            assert(line_views(lines@) =~= render_lines(ps.subrange(0, i as int + 1))) by {
                assert forall|j: int| 0 <= j < i implies #[trigger] line_views(lines@)[j]
                    == render_lines(ps.subrange(0, i as int + 1))[j] by {
                    assert(lines@[j] == prev[j]);
                    assert(line_views(prev)[j] == render_lines(ps.subrange(0, i as int))[j]);
                }
            }
            i = i + 1;
        }
        assert(ps.subrange(0, i as int) =~= ps);
        sort_lines(&mut lines);
        let ghost l = line_views(lines@);
        let mut out: Vec<u8> = vec![72, 84, 84, 80, 47, 49, 46, 49, 32];
        let code = self.status_code.to_u32();
        out.push((48 + code / 100) as u8);
        out.push((48 + code / 10 % 10) as u8);
        out.push((48 + code % 10) as u8);
        out.push(32);
        let reason = self.status_code.to_reason_phrase();
        append_bytes(&mut out, reason.as_slice());
        out.push(13);
        out.push(10);
        assert(out@ =~= status_line_bytes(self.status_code));
        let ghost head = out@;
        let mut k: usize = 0;
        assert(l.subrange(0, 0) =~= Seq::<Seq<u8>>::empty());
        while k < lines.len()
            invariant
                l == line_views(lines@),
                k <= l.len(),
                out@ == head + concat_lines(l.subrange(0, k as int)),
            decreases l.len() - k,
        {
            append_bytes(&mut out, lines[k].as_slice());
            proof {
                lemma_concat_lines_push(l.subrange(0, k as int), l[k as int]);
                assert(l.subrange(0, k as int + 1) =~= l.subrange(0, k as int).push(l[k as int]));
            }
            k = k + 1;
        }
        assert(l.subrange(0, k as int) =~= l);
        out.push(13);
        out.push(10);
        append_bytes(&mut out, self.body.as_slice());
        assert(out@ =~= status_line_bytes(self.status_code) + concat_lines(l) + crlf()
            + self.body@);
        let r = strip_nul_bytes(out.as_slice());
        assert(r@ == response_wire(self.status_code, l, self.body@));
        r
    }
}

/// Reads a status-code token.
fn parse_status_token(t: &[u8]) -> (r: Result<StatusCode, HttpError>)
    ensures
        r == status_token(t@),
{
    if t.len() == 0 || !check_digits(t) {
        return Err(HttpError::InvalidStatusCode);
    }
    match decimal_at_most(t, 599) {
        None => Err(HttpError::InvalidStatusCode),
        Some(n) => {
            if n < 100 {
                return Err(HttpError::InvalidStatusCode);
            }
            StatusCode::from_u32(n as u32)
        },
    }
}


/// No byte of `s` is zero.
pub open spec fn no_nul(s: Seq<u8>) -> bool {
    forall|k: int| 0 <= k < s.len() ==> #[trigger] s[k] != 0
}

/// A response whose wire form reads back as the same response: its headers
/// read back as themselves, no byte of a name, a value or the body is zero,
/// and the body is framed by `Content-Length`.
pub open spec fn response_survives_wire(q: HttpResponse) -> bool {
    &&& q.headers.wf()
    &&& all_wire_safe(q.headers.pairs())
    &&& forall|k: int|
        0 <= k < q.headers.pairs().len() ==> no_nul(#[trigger] q.headers.pairs()[k].0) && no_nul(
            q.headers.pairs()[k].1,
        )
    &&& no_nul(q.body@)
    &&& body_framed(q.headers@, q.body@)
}

/// Taking zero bytes out of bytes that hold none changes nothing.
pub proof fn lemma_strip_nul_id(x: Seq<u8>)
    requires
        no_nul(x),
    ensures
        strip_nul(x) == x,
    decreases x.len(),
{
    if x.len() > 0 {
        lemma_strip_nul_id(x.drop_last());
        assert(x.drop_last().push(x.last()) =~= x);
    }
}

/// Lines without zero bytes concatenate to bytes without them.
pub proof fn lemma_concat_no_nul(l: Seq<Seq<u8>>)
    requires
        forall|i: int| 0 <= i < l.len() ==> no_nul(#[trigger] l[i]),
    ensures
        no_nul(concat_lines(l)),
    decreases l.len(),
{
    if l.len() > 0 {
        let t = l.drop_first();
        assert forall|i: int| 0 <= i < t.len() implies no_nul(#[trigger] t[i]) by {
            assert(t[i] == l[i + 1]);
        }
        lemma_concat_no_nul(t);
        let c = concat_lines(l);
        assert(c == l[0] + concat_lines(t));
        assert(no_nul(l[0]));
        assert forall|k: int| 0 <= k < c.len() implies #[trigger] c[k] != 0 by {
            if k < l[0].len() {
                assert(c[k] == l[0][k]);
            } else {
                assert(c[k] == concat_lines(t)[k - l[0].len()]);
            }
        }
    }
}

/// Pairs that read back as themselves have distinct renderings.
pub proof fn lemma_render_injective(a: HeaderPair, b: HeaderPair)
    requires
        wire_safe_pair(a),
        wire_safe_pair(b),
        render_pair(a) == render_pair(b),
    ensures
        a == b,
{
    lemma_header_line_of(a);
    lemma_header_line_of(b);
    let ra = render_pair(a);
    let rb = render_pair(b);
    assert(ra.subrange(0, ra.len() - 2) =~= a.0 + colon_space() + a.1);
    assert(rb.subrange(0, rb.len() - 2) =~= b.0 + colon_space() + b.1);
}

/// The digits of a status code spell it.
pub proof fn lemma_status_digits(st: StatusCode)
    ensures
        status_digits(code_of(st)).len() == 3,
        all_digits(status_digits(code_of(st))),
        decimal_value(status_digits(code_of(st))) == code_of(st),
{
    reveal_with_fuel(decimal_value, 4);
    let d = status_digits(code_of(st));
    assert(d.drop_last() =~= seq![d[0], d[1]]);
    assert(d.drop_last().drop_last() =~= seq![d[0]]);
    assert(d.drop_last().drop_last().drop_last() =~= Seq::<u8>::empty());
    match st {
        StatusCode::OK => {},
        StatusCode::MovedPermanently => {},
        StatusCode::Found => {},
        StatusCode::NotFound => {},
        StatusCode::InvalidRequest => {},
        StatusCode::Unauthorized => {},
        StatusCode::Forbidden => {},
        StatusCode::MethodNotAllowed => {},
        StatusCode::NotAcceptable => {},
        StatusCode::InternalServerError => {},
        StatusCode::NotImplemented => {},
        StatusCode::BadGateway => {},
    }
}

/// A status line followed by anything reads back as its status, and its line
/// feed is the first one.
pub proof fn lemma_status_line_of(st: StatusCode, rest: Seq<u8>)
    ensures
        index_of_byte(status_line_bytes(st) + rest, 0, LF) == status_line_bytes(st).len() - 1,
        status_line(
            line_text(status_line_bytes(st) + rest, 0, status_line_bytes(st).len() - 1),
        ) == Ok::<StatusCode, HttpError>(st),
{
    lemma_reason_printable(st);
    lemma_status_digits(st);
    let rs = reason_of(st);
    let d = status_digits(code_of(st));
    let sl = status_line_bytes(st);
    let x = sl + rest;
    let n = sl.len() as int;
    assert(n == 15 + rs.len());
    let j0 = n - 1;
    assert forall|k: int| 0 <= k < j0 implies x[k] != LF by {
        if 9 <= k < 12 {
            assert(x[k] == d[k - 9]);
        } else if 13 <= k < 13 + rs.len() {
            assert(x[k] == rs[k - 13]);
        }
    }
    lemma_index_run(x, 0, j0, LF);
    let c = line_text(x, 0, j0);
    assert(c =~= version_1_1() + seq![32u8] + d + seq![32u8] + rs);
    lemma_spaces_run(c, 0, 0);
    lemma_token_run(c, 0, 8);
    assert(c[9] == d[0]);
    lemma_spaces_run(c, 8, 9);
    assert forall|k: int| 9 <= k < 12 implies !is_space(c[k]) by {
        assert(c[k] == d[k - 9]);
    }
    lemma_token_run(c, 9, 12);
    assert(c.subrange(0, 8) =~= version_1_1());
    assert(c.subrange(9, 12) =~= d);
    lemma_code_round_trip(st);
}

/// Pairs recovered from a reordering of the header lines map names as the
/// pairs they were rendered from do.
pub proof fn lemma_reordered_header_map(ps: Seq<HeaderPair>, l: Seq<Seq<u8>>, ps2: Seq<HeaderPair>)
    requires
        unique_names(ps),
        all_wire_safe(ps),
        l.to_multiset() == render_lines(ps).to_multiset(),
        ps2.len() == l.len(),
        forall|k: int|
            0 <= k < l.len() ==> ps.contains(#[trigger] ps2[k]) && render_pair(ps2[k]) == l[k],
    ensures
        header_map(ps2) == header_map(ps),
{
    let rl = render_lines(ps);
    lemma_header_map(ps2);
    lemma_unique_header_map(ps);
    assert forall|a: int, b: int|
        0 <= a < ps2.len() && 0 <= b < ps2.len() && ps2[a].0 == ps2[b].0 implies ps2[a]
        == ps2[b] by {
        assert(ps.contains(ps2[a]));
        assert(ps.contains(ps2[b]));
    }
    lemma_consistent_header_map(ps2);
    assert forall|key: Seq<u8>| #[trigger]
        header_map(ps2).contains_key(key) implies header_map(ps).contains_key(key)
        && header_map(ps2)[key] == header_map(ps)[key] by {
        let a = choose|a: int| 0 <= a < ps2.len() && ps2[a].0 == key;
        assert(ps.contains(ps2[a]));
        let j = choose|j: int| 0 <= j < ps.len() && ps[j] == ps2[a];
        assert(ps[j].0 == key);
    }
    assert forall|key: Seq<u8>| #[trigger]
        header_map(ps).contains_key(key) implies header_map(ps2).contains_key(key) by {
        let j = choose|j: int| 0 <= j < ps.len() && ps[j].0 == key;
        vstd::seq_lib::to_multiset_contains(l, rl[j]);
        vstd::seq_lib::to_multiset_contains(rl, rl[j]);
        assert(rl.contains(rl[j]));
        let a = choose|a: int| 0 <= a < l.len() && l[a] == rl[j];
        assert(render_pair(ps2[a]) == render_pair(ps[j]));
        assert(ps.contains(ps2[a]));
        assert(wire_safe_pair(ps[j]));
        let i = choose|i: int| 0 <= i < ps.len() && ps[i] == ps2[a];
        assert(wire_safe_pair(ps[i]));
        lemma_render_injective(ps2[a], ps[j]);
        assert(ps2[a].0 == key);
    }
    assert(header_map(ps2) =~= header_map(ps));
}

/// `x` is the rendering of some pair of `ps`.
pub open spec fn is_rendered_in(ps: Seq<HeaderPair>, x: Seq<u8>) -> bool {
    exists|j: int| 0 <= j < ps.len() && #[trigger] render_pair(ps[j]) == x
}

/// Each line of a reordering of the header lines of `ps` is the rendering of
/// a pair of `ps`; the pairs are given in the order of the lines.
pub proof fn lemma_recover_pairs(ps: Seq<HeaderPair>, l: Seq<Seq<u8>>) -> (ps2: Seq<HeaderPair>)
    requires
        all_wire_safe(ps),
        forall|k: int|
            0 <= k < ps.len() ==> no_nul(#[trigger] ps[k].0) && no_nul(ps[k].1),
        l.to_multiset() == render_lines(ps).to_multiset(),
    ensures
        ps2.len() == l.len(),
        forall|k: int|
            0 <= k < l.len() ==> ps.contains(#[trigger] ps2[k]) && render_pair(ps2[k]) == l[k],
        render_lines(ps2) == l,
        all_wire_safe(ps2),
        forall|k: int| 0 <= k < l.len() ==> no_nul(#[trigger] l[k]),
{
    let rl = render_lines(ps);
    assert forall|k: int| 0 <= k < l.len() implies #[trigger] is_rendered_in(ps, l[k]) by {
        vstd::seq_lib::to_multiset_contains(l, l[k]);
        vstd::seq_lib::to_multiset_contains(rl, l[k]);
        assert(l.contains(l[k]));
        let j = choose|j: int| 0 <= j < rl.len() && rl[j] == l[k];
        assert(render_pair(ps[j]) == l[k]);
    }
    let ps2 = Seq::new(
        l.len(),
        |k: int| choose|p: HeaderPair| ps.contains(p) && render_pair(p) == l[k],
    );
    assert forall|k: int| 0 <= k < l.len() implies ps.contains(#[trigger] ps2[k]) && render_pair(
        ps2[k],
    ) == l[k] by {
        assert(is_rendered_in(ps, l[k]));
        let j = choose|j: int| 0 <= j < ps.len() && #[trigger] render_pair(ps[j]) == l[k];
        assert(ps.contains(ps[j]));
    }
    assert(render_lines(ps2) =~= l);
    assert(all_wire_safe(ps2)) by {
        assert forall|k: int| 0 <= k < ps2.len() implies wire_safe_pair(#[trigger] ps2[k]) by {
            assert(ps.contains(ps2[k]));
        }
    }
    assert forall|k: int| 0 <= k < l.len() implies no_nul(#[trigger] l[k]) by {
        assert(ps.contains(ps2[k]));
        let j = choose|j: int| 0 <= j < ps.len() && ps[j] == ps2[k];
        let p = ps[j];
        assert(no_nul(p.0) && no_nul(p.1));
        let line = render_pair(p);
        assert forall|t: int| 0 <= t < line.len() implies #[trigger] line[t] != 0 by {
            if t < p.0.len() {
                assert(line[t] == p.0[t]);
            } else if t < p.0.len() + 2 {
            } else if t < p.0.len() + 2 + p.1.len() {
                assert(line[t] == p.1[t - p.0.len() - 2]);
            }
        }
    }
    ps2
}

/// A status line, lines and a body without zero bytes make bytes without them.
pub proof fn lemma_wire_no_nul(st: StatusCode, cl: Seq<u8>, body: Seq<u8>)
    requires
        no_nul(cl),
        no_nul(body),
    ensures
        no_nul(status_line_bytes(st) + cl + crlf() + body),
{
    lemma_reason_printable(st);
    lemma_status_digits(st);
    let rs = reason_of(st);
    let d = status_digits(code_of(st));
    let sl = status_line_bytes(st);
    let n = sl.len() as int;
    assert(n == 15 + rs.len());
    let x = sl + cl + crlf() + body;
    assert forall|k: int| 0 <= k < x.len() implies #[trigger] x[k] != 0 by {
        if 9 <= k < 12 {
            assert(x[k] == d[k - 9]);
        } else if 13 <= k < 13 + rs.len() {
            assert(x[k] == rs[k - 13]);
        } else if n <= k < n + cl.len() {
            assert(x[k] == cl[k - n]);
        } else if k >= n + cl.len() + 2 {
            assert(x[k] == body[k - n - cl.len() - 2]);
        }
    }
}

/// Parsing what `serialize` writes gives back the status, every header and
/// the body of the response, whatever the order of the header lines.
#[verifier::rlimit(80)]
pub proof fn lemma_response_round_trip(q: HttpResponse, l: Seq<Seq<u8>>)
    requires
        response_survives_wire(q),
        l.to_multiset() == render_lines(q.headers.pairs()).to_multiset(),
    ensures
        parse_response_spec(response_wire(q.status_code, l, q.body@)) == Ok::<
            ResponseModel,
            HttpError,
        >(q.model()),
{
    let ps = q.headers.pairs();
    let st = q.status_code;
    let body = q.body@;
    let ps2 = lemma_recover_pairs(ps, l);
    lemma_concat_no_nul(l);
    let cl = concat_lines(l);
    lemma_wire_no_nul(st, cl, body);
    let sl = status_line_bytes(st);
    let n = sl.len() as int;
    let tail = cl + crlf() + body;
    let x = sl + tail;
    assert(sl + cl + crlf() + body =~= x);
    lemma_strip_nul_id(x);
    assert(response_wire(st, l, body) == x);
    lemma_status_line_of(st, tail);
    let j0 = n - 1;
    assert(index_of_byte(x, 0, LF) == j0);
    assert(status_line(line_text(x, 0, j0)) == Ok::<StatusCode, HttpError>(st));
    assert(x.subrange(n, n + cl.len() + 2) =~= cl + crlf());
    lemma_header_block_of(x, n, Seq::empty(), ps2);
    assert(Seq::<HeaderPair>::empty() + ps2 =~= ps2);
    let b = n + cl.len() + 2;
    assert(header_block(x, j0 + 1, Seq::empty()) == Ok::<(Seq<HeaderPair>, int), HttpError>(
        (ps2, b),
    ));
    lemma_reordered_header_map(ps, l, ps2);
    assert(header_map(ps2) == q.headers@);
    assert(x.subrange(b, b + body.len()) =~= body);
    assert(x.len() == b + body.len());
    if !q.headers@.contains_key(crate::codec::content_length_name()) {
        assert(body =~= Seq::<u8>::empty());
    }
    assert(message_body(x, b, header_map(ps2)) == Ok::<Seq<u8>, HttpError>(body));
    lemma_parse_response_steps(x, st, ps2, b, body);
}

/// A response parses to its parts once each step is known to give them.
pub proof fn lemma_parse_response_steps(
    s: Seq<u8>,
    st: StatusCode,
    pairs: Seq<HeaderPair>,
    b: int,
    body: Seq<u8>,
)
    requires
        index_of_byte(s, 0, LF) < s.len(),
        status_line(line_text(s, 0, index_of_byte(s, 0, LF))) == Ok::<StatusCode, HttpError>(st),
        header_block(s, index_of_byte(s, 0, LF) + 1, Seq::empty()) == Ok::<
            (Seq<HeaderPair>, int),
            HttpError,
        >((pairs, b)),
        message_body(s, b, header_map(pairs)) == Ok::<Seq<u8>, HttpError>(body),
    ensures
        parse_response_spec(s) == Ok::<ResponseModel, HttpError>(
            ResponseModel { status_code: st, headers: header_map(pairs), body },
        ),
{
    reveal(parse_response_spec);
}

} // verus!
