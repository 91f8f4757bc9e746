use vstd::prelude::*;

use crate::bytes::{append_bytes, copy_range};
use crate::error::HttpError;
use crate::headers::{header_map, HeaderPair, Headers};
use crate::scan::{
    is_space, lemma_index_run, lemma_trim_after_space,
    all_digits, check_digits, decimal_at_most, decimal_value, find_byte, index_of_byte, line_text,
    skip_spaces, skip_token, spaces_end, token_end, trim, trim_bounds, CR, LF,
};

verus! {

/// `\r\n`
pub open spec fn crlf() -> Seq<u8> {
    seq![13, 10]
}

/// `: `
pub open spec fn colon_space() -> Seq<u8> {
    seq![58, 32]
}

/// `Content-Length`
pub open spec fn content_length_name() -> Seq<u8> {
    seq![67, 111, 110, 116, 101, 110, 116, 45, 76, 101, 110, 103, 116, 104]
}

/// `Host`
pub open spec fn host_name() -> Seq<u8> {
    seq![72, 111, 115, 116]
}

/// The header that a line carries: the name runs up to the first colon and the
/// value is the rest, trimmed. A line without a colon carries none.
pub open spec fn header_line(c: Seq<u8>) -> Option<HeaderPair> {
    let k = index_of_byte(c, 0, 58);
    if k >= c.len() {
        None
    } else {
        Some((c.subrange(0, k), trim(c.subrange(k + 1, c.len() as int))))
    }
}

/// Reads header lines from position `i` of `s` up to the first empty line,
/// after the pairs already read in `acc`. Gives all pairs in order and the
/// position just past the empty line.
pub open spec fn header_block(s: Seq<u8>, i: int, acc: Seq<HeaderPair>) -> Result<
    (Seq<HeaderPair>, int),
    HttpError,
>
    decreases s.len() - i,
{
    let j = index_of_byte(s, i, LF);
    if i < 0 || j < i || j >= s.len() {
        Err(HttpError::UnterminatedHead)
    } else {
        let c = line_text(s, i, j);
        if c.len() == 0 {
            Ok((acc, j + 1))
        } else {
            match header_line(c) {
                None => Err(HttpError::MalformedHeader),
                Some(p) => header_block(s, j + 1, acc.push(p)),
            }
        }
    }
}

/// The body that starts at position `b` of `s`: as many bytes as
/// `Content-Length` declares, or none when the header is absent.
pub open spec fn message_body(s: Seq<u8>, b: int, m: Map<Seq<u8>, Seq<u8>>) -> Result<
    Seq<u8>,
    HttpError,
> {
    if !m.contains_key(content_length_name()) {
        Ok(Seq::empty())
    } else {
        let v = m[content_length_name()];
        if v.len() == 0 || !all_digits(v) {
            Err(HttpError::InvalidContentLength)
        } else if b + decimal_value(v) > s.len() {
            Err(HttpError::TruncatedBody)
        } else {
            Ok(s.subrange(b, b + decimal_value(v)))
        }
    }
}

/// The body is what `Content-Length` declares: a decimal count equal to its
/// length, or no such header and no body.
pub open spec fn body_framed(m: Map<Seq<u8>, Seq<u8>>, body: Seq<u8>) -> bool {
    if m.contains_key(content_length_name()) {
        let v = m[content_length_name()];
        v.len() > 0 && all_digits(v) && decimal_value(v) == body.len()
    } else {
        body.len() == 0
    }
}

/// The bounds of the first three whitespace-separated tokens of a start line:
/// (start, end) of the first two and the start of the third. A token that is
/// missing starts at the length of the line.
pub open spec fn start_tokens(c: Seq<u8>) -> (int, int, int, int, int) {
    let a0 = spaces_end(c, 0);
    let b0 = token_end(c, a0);
    let a1 = spaces_end(c, b0);
    let b1 = token_end(c, a1);
    let a2 = spaces_end(c, b1);
    (a0, b0, a1, b1, a2)
}

/// A header line: name, `: `, value, `\r\n`.
pub open spec fn render_pair(p: HeaderPair) -> Seq<u8> {
    p.0 + colon_space() + p.1 + crlf()
}

/// The header lines of `ps`, one for each pair, in order.
pub open spec fn render_lines(ps: Seq<HeaderPair>) -> Seq<Seq<u8>> {
    Seq::new(ps.len(), |i: int| render_pair(ps[i]))
}

/// The lines of `l` one after another.
pub open spec fn concat_lines(l: Seq<Seq<u8>>) -> Seq<u8>
    decreases l.len(),
{
    if l.len() == 0 {
        Seq::empty()
    } else {
        l[0] + concat_lines(l.drop_first())
    }
}

/// The start-line tokens of a line.
pub struct StartTokens {
    pub a0: usize,
    pub b0: usize,
    pub a1: usize,
    pub b1: usize,
    pub a2: usize,
}

/// Finds the first three whitespace-separated tokens of a start line.
pub fn find_start_tokens(c: &[u8]) -> (r: StartTokens)
    ensures
        (r.a0 as int, r.b0 as int, r.a1 as int, r.b1 as int, r.a2 as int) == start_tokens(c@),
        r.a0 <= r.b0 <= r.a1 <= r.b1 <= r.a2 <= c@.len(),
{
    let a0 = skip_spaces(c, 0);
    let b0 = skip_token(c, a0);
    let a1 = skip_spaces(c, b0);
    let b1 = skip_token(c, a1);
    let a2 = skip_spaces(c, b1);
    StartTokens { a0, b0, a1, b1, a2 }
}

/// The end of the text of the line that starts at `i` and ends at the line
/// feed (or end of input) at `j`.
pub fn line_text_end(s: &[u8], i: usize, j: usize) -> (r: usize)
    requires
        i <= j <= s@.len(),
    ensures
        i <= r <= j,
        s@.subrange(i as int, r as int) == line_text(s@, i as int, j as int),
{
    if j > i && s[j - 1] == CR {
        j - 1
    } else {
        j
    }
}

/// The header that one line of text carries.
pub fn parse_header_line(c: &[u8]) -> (r: Option<(Vec<u8>, Vec<u8>)>)
    ensures
        match header_line(c@) {
            Some(p) => r matches Some(q) && q.0@ == p.0 && q.1@ == p.1,
            None => r is None,
        },
{
    let k = find_byte(c, 0, 58);
    if k >= c.len() {
        return None;
    }
    let name = copy_range(c, 0, k);
    let rest = copy_range(c, k + 1, c.len());
    let (a, b) = trim_bounds(rest.as_slice());
    let value = copy_range(rest.as_slice(), a, b);
    Some((name, value))
}

/// Reads the header block that starts at position `start` of `s`.
pub fn parse_header_block(s: &[u8], start: usize) -> (r: Result<(Headers, usize), HttpError>)
    requires
        start <= s@.len(),
    ensures
        match header_block(s@, start as int, Seq::empty()) {
            Ok((pairs, b)) => r matches Ok((h, e)) && h.wf() && h@ == header_map(pairs) && e == b,
            Err(err) => r == Err::<(Headers, usize), HttpError>(err),
        },
        r matches Ok((h, e)) ==> start < e <= s@.len(),
{
    let mut headers = Headers::new();
    let mut pos: usize = start;
    let ghost mut acc: Seq<HeaderPair> = Seq::empty();
    loop
        invariant
            start <= pos <= s@.len(),
            headers.wf(),
            headers@ == header_map(acc),
            header_block(s@, pos as int, acc) == header_block(s@, start as int, Seq::empty()),
        decreases s@.len() - pos,
    {
        let j = find_byte(s, pos, LF);
        if j >= s.len() {
            return Err(HttpError::UnterminatedHead);
        }
        let end = line_text_end(s, pos, j);
        if end == pos {
            return Ok((headers, j + 1));
        }
        let line = copy_range(s, pos, end);
        match parse_header_line(line.as_slice()) {
            None => {
                return Err(HttpError::MalformedHeader);
            },
            Some((name, value)) => {
                let ghost prev = acc;
                proof {
                    acc = acc.push((name@, value@));
                    assert(acc.drop_last() =~= prev);
                }
                headers.insert(name, value);
                pos = j + 1;
            },
        }
    }
}

/// Reads the body that starts at position `b` of `s`, as the headers frame it.
pub fn parse_body(s: &[u8], b: usize, headers: &Headers) -> (r: Result<Vec<u8>, HttpError>)
    requires
        b <= s@.len(),
        headers.wf(),
    ensures
        match message_body(s@, b as int, headers@) {
            Ok(body) => r matches Ok(v) && v@ == body,
            Err(err) => r == Err::<Vec<u8>, HttpError>(err),
        },
{
    let name: Vec<u8> = vec![67, 111, 110, 116, 101, 110, 116, 45, 76, 101, 110, 103, 116, 104];
    assert(name@ =~= content_length_name());
    match headers.get(name.as_slice()) {
        None => {
            let v: Vec<u8> = Vec::new();
            assert(v@ =~= Seq::<u8>::empty());
            Ok(v)
        },
        Some(v) => {
            if v.len() == 0 || !check_digits(v.as_slice()) {
                return Err(HttpError::InvalidContentLength);
            }
            match decimal_at_most(v.as_slice(), s.len() - b) {
                None => Err(HttpError::TruncatedBody),
                Some(n) => Ok(copy_range(s, b, b + n)),
            }
        },
    }
}

/// Appends the header lines of `headers`, in order, to `out`.
pub fn render_headers(out: &mut Vec<u8>, headers: &Headers)
    ensures
        final(out)@ == old(out)@ + concat_lines(render_lines(headers.pairs())),
{
    let ghost start = out@;
    let ghost ps = headers.pairs();
    let mut i: usize = 0;
    assert(render_lines(ps.subrange(0, 0)) =~= Seq::<Seq<u8>>::empty());
    while i < headers.len()
        invariant
            ps == headers.pairs(),
            i <= ps.len(),
            out@ == start + concat_lines(render_lines(ps.subrange(0, i as int))),
        decreases ps.len() - i,
    {
        let (name, value) = headers.pair_at(i);
        let ghost before = out@;
        append_bytes(out, name.as_slice());
        out.push(58);
        out.push(32);
        append_bytes(out, value.as_slice());
        out.push(13);
        out.push(10);
        proof {
            lemma_concat_lines_push(render_lines(ps.subrange(0, i as int)), render_pair(ps[i as int]));
            assert(render_lines(ps.subrange(0, i as int + 1)) =~= render_lines(
                ps.subrange(0, i as int),
            ).push(render_pair(ps[i as int])));
        }
        assert(out@ =~= before + render_pair(ps[i as int]));
        i = i + 1;
    }
    assert(ps.subrange(0, i as int) =~= ps);
}

/// A header that reads back as itself: its name holds no colon and no line
/// feed, and its value no line feed and no whitespace at either end.
pub open spec fn wire_safe_pair(p: HeaderPair) -> bool {
    &&& forall|k: int| 0 <= k < p.0.len() ==> #[trigger] p.0[k] != 58 && p.0[k] != LF
    &&& forall|k: int| 0 <= k < p.1.len() ==> #[trigger] p.1[k] != LF
    &&& p.1.len() == 0 || (!is_space(p.1[0]) && !is_space(p.1.last()))
}

/// Every pair of `ps` reads back as itself.
pub open spec fn all_wire_safe(ps: Seq<HeaderPair>) -> bool {
    forall|k: int| 0 <= k < ps.len() ==> wire_safe_pair(#[trigger] ps[k])
}

/// The text of a rendered header line carries the pair back.
pub proof fn lemma_header_line_of(p: HeaderPair)
    requires
        wire_safe_pair(p),
    ensures
        header_line(p.0 + colon_space() + p.1) == Some(p),
{
    let c = p.0 + colon_space() + p.1;
    let n = p.0.len() as int;
    assert forall|k: int| 0 <= k < n implies c[k] != 58 by {
        assert(c[k] == p.0[k]);
    }
    lemma_index_run(c, 0, n, 58);
    assert(c.subrange(0, n) =~= p.0);
    assert(c.subrange(n + 1, c.len() as int) =~= seq![32u8] + p.1);
    lemma_trim_after_space(p.1);
}

/// The lines of `ps` followed by a blank line read back as `ps`, after the
/// pairs already in `acc`, and end just past the blank line.
pub proof fn lemma_header_block_of(s: Seq<u8>, i: int, acc: Seq<HeaderPair>, ps: Seq<HeaderPair>)
    requires
        0 <= i,
        i + concat_lines(render_lines(ps)).len() + 2 <= s.len(),
        s.subrange(i, i + concat_lines(render_lines(ps)).len() + 2) == concat_lines(
            render_lines(ps),
        ) + crlf(),
        all_wire_safe(ps),
    ensures
        header_block(s, i, acc) == Ok::<(Seq<HeaderPair>, int), HttpError>(
            (acc + ps, i + concat_lines(render_lines(ps)).len() + 2),
        ),
    decreases ps.len(),
{
    let r = concat_lines(render_lines(ps));
    let w = s.subrange(i, i + r.len() + 2);
    if ps.len() == 0 {
        assert(r =~= Seq::<u8>::empty());
        assert(s[i] == w[0]);
        assert(s[i + 1] == w[1]);
        lemma_index_run(s, i, i + 1, LF);
        assert(line_text(s, i, i + 1) =~= Seq::<u8>::empty());
        assert(acc + ps =~= acc);
    } else {
        let p = ps[0];
        let rest = ps.drop_first();
        let line = render_pair(p);
        let n = line.len() as int;
        let r2 = concat_lines(render_lines(rest));
        assert(render_lines(ps).drop_first() =~= render_lines(rest));
        assert(r == line + r2);
        let j = i + n - 1;
        assert forall|k: int| i <= k < j implies s[k] != LF by {
            assert(s[k] == w[k - i]);
            assert(w[k - i] == line[k - i]);
            let t = k - i;
            if t < p.0.len() {
                assert(line[t] == p.0[t]);
            } else if t < p.0.len() + 2 {
            } else if t < p.0.len() + 2 + p.1.len() {
                assert(line[t] == p.1[t - p.0.len() - 2]);
            }
        }
        assert(s[j] == w[n - 1]);
        lemma_index_run(s, i, j, LF);
        assert(s[j - 1] == w[n - 2]);
        assert(s.subrange(i, j - 1) =~= p.0 + colon_space() + p.1);
        lemma_header_line_of(p);
        assert(wire_safe_pair(p));
        assert(all_wire_safe(rest)) by {
            assert forall|k: int| 0 <= k < rest.len() implies wire_safe_pair(#[trigger] rest[k]) by {
                assert(rest[k] == ps[k + 1]);
            }
        }
        assert(s.subrange(i + n, i + n + r2.len() + 2) =~= r2 + crlf()) by {
            assert(s.subrange(i + n, i + n + r2.len() + 2) =~= w.subrange(n, r.len() + 2 as int));
        }
        lemma_header_block_of(s, i + n, acc.push(p), rest);
        assert(acc.push(p) + rest =~= acc + ps);
    }
}

/// Concatenating one more line appends it at the end.
pub proof fn lemma_concat_lines_push(l: Seq<Seq<u8>>, x: Seq<u8>)
    ensures
        concat_lines(l.push(x)) == concat_lines(l) + x,
    decreases l.len(),
{
    if l.len() == 0 {
        assert(l.push(x).drop_first() =~= Seq::<Seq<u8>>::empty());
        assert(concat_lines(l.push(x).drop_first()) == Seq::<u8>::empty());
        assert(concat_lines(l.push(x)) =~= x);
    } else {
        lemma_concat_lines_push(l.drop_first(), x);
        assert(l.push(x).drop_first() =~= l.drop_first().push(x));
        assert(concat_lines(l.push(x)) =~= concat_lines(l) + x);
    }
}

} // verus!
