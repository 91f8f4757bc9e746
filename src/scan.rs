use vstd::prelude::*;

verus! {

/// Line feed.
pub const LF: u8 = 10;

/// Carriage return.
pub const CR: u8 = 13;

/// ASCII whitespace: space, tab, line feed, form feed, carriage return.
pub open spec fn is_space(b: u8) -> bool {
    b == 32 || b == 9 || b == 10 || b == 12 || b == 13
}

/// An ASCII decimal digit.
pub open spec fn is_digit(b: u8) -> bool {
    48 <= b <= 57
}

/// Every byte of `s` is a decimal digit.
pub open spec fn all_digits(s: Seq<u8>) -> bool {
    forall|i: int| 0 <= i < s.len() ==> is_digit(#[trigger] s[i])
}

/// The number that the digits of `s` spell in base ten (0 for no digits).
pub open spec fn decimal_value(s: Seq<u8>) -> nat
    decreases s.len(),
{
    if s.len() == 0 {
        0
    } else {
        decimal_value(s.drop_last()) * 10 + (s.last() - 48) as nat
    }
}

/// The first position at or after `i` that holds `b`, or the length of `s`.
pub open spec fn index_of_byte(s: Seq<u8>, i: int, b: u8) -> int
    decreases s.len() - i,
{
    if i < 0 || i >= s.len() {
        s.len() as int
    } else if s[i] == b {
        i
    } else {
        index_of_byte(s, i + 1, b)
    }
}

/// The first position at or after `i` that is not whitespace, or the length of `s`.
pub open spec fn spaces_end(s: Seq<u8>, i: int) -> int
    decreases s.len() - i,
{
    if i < 0 || i >= s.len() {
        s.len() as int
    } else if !is_space(s[i]) {
        i
    } else {
        spaces_end(s, i + 1)
    }
}

/// The first position at or after `i` that is whitespace, or the length of `s`.
pub open spec fn token_end(s: Seq<u8>, i: int) -> int
    decreases s.len() - i,
{
    if i < 0 || i >= s.len() {
        s.len() as int
    } else if is_space(s[i]) {
        i
    } else {
        token_end(s, i + 1)
    }
}

/// `s` without its leading whitespace.
pub open spec fn trim_start(s: Seq<u8>) -> Seq<u8>
    decreases s.len(),
{
    if s.len() > 0 && is_space(s[0]) {
        trim_start(s.drop_first())
    } else {
        s
    }
}

/// `s` without its trailing whitespace.
pub open spec fn trim_end(s: Seq<u8>) -> Seq<u8>
    decreases s.len(),
{
    if s.len() > 0 && is_space(s.last()) {
        trim_end(s.drop_last())
    } else {
        s
    }
}

/// `s` without leading and trailing whitespace.
pub open spec fn trim(s: Seq<u8>) -> Seq<u8> {
    trim_end(trim_start(s))
}

/// The text of the line that starts at `i` and whose line feed (or the end of
/// input) is at `j`, without a carriage return just before `j`.
pub open spec fn line_text(s: Seq<u8>, i: int, j: int) -> Seq<u8> {
    if j > i && s[j - 1] == CR {
        s.subrange(i, j - 1)
    } else {
        s.subrange(i, j)
    }
}

/// The first `b` at or after `i` is at `j` when none lies in between; `j` may
/// be the end of `s`.
pub proof fn lemma_index_run(s: Seq<u8>, i: int, j: int, b: u8)
    requires
        0 <= i <= j <= s.len(),
        j == s.len() || s[j] == b,
        forall|k: int| i <= k < j ==> s[k] != b,
    ensures
        index_of_byte(s, i, b) == j,
    decreases j - i,
{
    if i < j {
        lemma_index_run(s, i + 1, j, b);
    }
}

/// Whitespace from `i` runs up to `j`.
pub proof fn lemma_spaces_run(s: Seq<u8>, i: int, j: int)
    requires
        0 <= i <= j <= s.len(),
        j == s.len() || !is_space(s[j]),
        forall|k: int| i <= k < j ==> is_space(s[k]),
    ensures
        spaces_end(s, i) == j,
    decreases j - i,
{
    if i < j {
        lemma_spaces_run(s, i + 1, j);
    }
}

/// A token from `i` runs up to `j`.
pub proof fn lemma_token_run(s: Seq<u8>, i: int, j: int)
    requires
        0 <= i <= j <= s.len(),
        j == s.len() || is_space(s[j]),
        forall|k: int| i <= k < j ==> !is_space(s[k]),
    ensures
        token_end(s, i) == j,
    decreases j - i,
{
    if i < j {
        lemma_token_run(s, i + 1, j);
    }
}

/// A value with no whitespace at either end is what trimming a space before
/// it gives back.
pub proof fn lemma_trim_after_space(v: Seq<u8>)
    requires
        v.len() == 0 || (!is_space(v[0]) && !is_space(v.last())),
    ensures
        trim(seq![32u8] + v) == v,
{
    let w = seq![32u8] + v;
    assert(w.drop_first() =~= v);
    assert(trim_start(w) == trim_start(v));
    assert(trim_start(v) == v);
    assert(trim_end(v) == v);
}

/// A longer run of digits never spells a smaller number.
pub proof fn lemma_decimal_prefix(s: Seq<u8>, i: int)
    requires
        0 <= i <= s.len(),
        all_digits(s),
    ensures
        decimal_value(s.subrange(0, i)) <= decimal_value(s),
    decreases s.len() - i,
{
    if i < s.len() {
        let t = s.drop_last();
        assert(all_digits(t)) by {
            assert forall|k: int| 0 <= k < t.len() implies is_digit(#[trigger] t[k]) by {
                assert(t[k] == s[k]);
            }
        }
        if i < s.len() {
            lemma_decimal_prefix(t, i);
            assert(t.subrange(0, i) =~= s.subrange(0, i));
        }
    } else {
        assert(s.subrange(0, i) =~= s);
    }
}

/// Whether `c` is ASCII whitespace.
pub fn is_space_byte(c: u8) -> (r: bool)
    ensures
        r == is_space(c),
{
    c == 32 || c == 9 || c == 10 || c == 12 || c == 13
}

/// The first position at or after `start` that holds `b`, or the length of `s`.
pub fn find_byte(s: &[u8], start: usize, b: u8) -> (r: usize)
    requires
        start <= s@.len(),
    ensures
        r == index_of_byte(s@, start as int, b),
        start <= r <= s@.len(),
{
    let mut i: usize = start;
    while i < s.len()
        invariant
            start <= i <= s@.len(),
            index_of_byte(s@, i as int, b) == index_of_byte(s@, start as int, b),
        decreases s@.len() - i,
    {
        if s[i] == b {
            return i;
        }
        i = i + 1;
    }
    i
}

/// The first position at or after `start` that is not whitespace.
pub fn skip_spaces(s: &[u8], start: usize) -> (r: usize)
    requires
        start <= s@.len(),
    ensures
        r == spaces_end(s@, start as int),
        start <= r <= s@.len(),
{
    let mut i: usize = start;
    while i < s.len()
        invariant
            start <= i <= s@.len(),
            spaces_end(s@, i as int) == spaces_end(s@, start as int),
        decreases s@.len() - i,
    {
        if !is_space_byte(s[i]) {
            return i;
        }
        i = i + 1;
    }
    i
}

/// The first position at or after `start` that is whitespace.
pub fn skip_token(s: &[u8], start: usize) -> (r: usize)
    requires
        start <= s@.len(),
    ensures
        r == token_end(s@, start as int),
        start <= r <= s@.len(),
{
    let mut i: usize = start;
    while i < s.len()
        invariant
            start <= i <= s@.len(),
            token_end(s@, i as int) == token_end(s@, start as int),
        decreases s@.len() - i,
    {
        if is_space_byte(s[i]) {
            return i;
        }
        i = i + 1;
    }
    i
}

/// The bounds of `s` without its leading and trailing whitespace.
pub fn trim_bounds(s: &[u8]) -> (r: (usize, usize))
    ensures
        r.0 <= r.1 <= s@.len(),
        s@.subrange(r.0 as int, r.1 as int) == trim(s@),
{
    let n = s.len();
    let mut a: usize = 0;
    assert(s@.subrange(0, n as int) =~= s@);
    while a < n && is_space_byte(s[a])
        invariant
            n == s@.len(),
            a <= n,
            trim_start(s@.subrange(a as int, n as int)) == trim_start(s@),
        decreases n - a,
    {
        assert(s@.subrange(a as int, n as int).drop_first() =~= s@.subrange(a as int + 1, n as int));
        a = a + 1;
    }
    let ghost t = trim_start(s@);
    assert(s@.subrange(a as int, n as int).len() == 0 || s@.subrange(a as int, n as int)[0]
        == s@[a as int]);
    assert(t == s@.subrange(a as int, n as int));
    let mut b: usize = n;
    assert(s@.subrange(a as int, n as int) =~= t);
    while b > a && is_space_byte(s[b - 1])
        invariant
            n == s@.len(),
            a <= b <= n,
            t == s@.subrange(a as int, n as int),
            trim_end(s@.subrange(a as int, b as int)) == trim_end(t),
        decreases b,
    {
        assert(s@.subrange(a as int, b as int).drop_last() =~= s@.subrange(a as int, b as int - 1));
        b = b - 1;
    }
    assert(s@.subrange(a as int, b as int).len() == 0 || s@.subrange(a as int, b as int).last()
        == s@[b - 1]);
    (a, b)
}

/// Whether every byte of `s` is a decimal digit.
pub fn check_digits(s: &[u8]) -> (r: bool)
    ensures
        r == all_digits(s@),
{
    let mut i: usize = 0;
    while i < s.len()
        invariant
            i <= s@.len(),
            forall|k: int| 0 <= k < i ==> is_digit(#[trigger] s@[k]),
        decreases s@.len() - i,
    {
        if s[i] < 48 || s[i] > 57 {
            return false;
        }
        i = i + 1;
    }
    true
}

/// The number spelled by the digits of `s`, when it is at most `limit`.
pub fn decimal_at_most(s: &[u8], limit: usize) -> (r: Option<usize>)
    requires
        all_digits(s@),
    ensures
        r is Some <==> decimal_value(s@) <= limit,
        r matches Some(v) ==> v == decimal_value(s@),
{
    let mut value: usize = 0;
    let mut i: usize = 0;
    assert(s@.subrange(0, 0) =~= Seq::<u8>::empty());
    while i < s.len()
        invariant
            i <= s@.len(),
            all_digits(s@),
            value == decimal_value(s@.subrange(0, i as int)),
            value <= limit,
        decreases s@.len() - i,
    {
        let d = (s[i] - 48) as usize;
        let ghost next = s@.subrange(0, i as int + 1);
        assert(next.drop_last() =~= s@.subrange(0, i as int));
        assert(decimal_value(next) == value * 10 + d);
        if value > limit / 10 {
            assert(value * 10 > limit) by (nonlinear_arith)
                requires
                    value > limit / 10,
            ;
            proof {
                lemma_decimal_prefix(s@, i as int + 1);
            }
            return None;
        }
        assert(value * 10 <= limit) by (nonlinear_arith)
            requires
                value <= limit / 10,
        ;
        let t = value * 10;
        if d > limit - t {
            proof {
                lemma_decimal_prefix(s@, i as int + 1);
            }
            return None;
        }
        value = t + d;
        i = i + 1;
    }
    assert(s@.subrange(0, i as int) =~= s@);
    Some(value)
}

} // verus!
