//! Character-level text helpers shared by the parsers and renderers.
//!
//! Text is modelled as `Seq<char>`; the exec helpers work on `Vec<char>`
//! copies of the input so that loops can index characters directly.

use vstd::prelude::*;

verus! {

// ── whitespace and trimming ────────────────────────────────────────────

/// Unicode `White_Space`, the set that `char::is_whitespace` tests.
pub open spec fn is_ws(c: char) -> bool {
    let u = c as u32;
    ||| 9 <= u <= 13
    ||| u == 32
    ||| u == 0x85
    ||| u == 0xA0
    ||| u == 0x1680
    ||| 0x2000 <= u <= 0x200A
    ||| u == 0x2028
    ||| u == 0x2029
    ||| u == 0x202F
    ||| u == 0x205F
    ||| u == 0x3000
}

pub fn char_is_ws(c: char) -> (b: bool)
    ensures
        b == is_ws(c),
{
    let u = c as u32;
    (9 <= u && u <= 13) || u == 32 || u == 0x85 || u == 0xA0 || u == 0x1680 || (0x2000 <= u && u
        <= 0x200A) || u == 0x2028 || u == 0x2029 || u == 0x202F || u == 0x205F || u == 0x3000
}

/// Index of the first non-whitespace character at or after `i`.
pub open spec fn ws_start(s: Seq<char>, i: int) -> int
    decreases s.len() - i,
{
    if i >= s.len() {
        s.len() as int
    } else if is_ws(s[i]) {
        ws_start(s, i + 1)
    } else {
        i
    }
}

/// One past the last non-whitespace character strictly before `j`
/// (and not before `lo`).
pub open spec fn ws_end(s: Seq<char>, lo: int, j: int) -> int
    decreases j - lo,
{
    if j <= lo {
        lo
    } else if is_ws(s[j - 1]) {
        ws_end(s, lo, j - 1)
    } else {
        j
    }
}

/// `s` without leading and trailing whitespace (`str::trim`).
pub open spec fn trim(s: Seq<char>) -> Seq<char> {
    let a = ws_start(s, 0);
    s.subrange(a, ws_end(s, a, s.len() as int))
}

/// A sequence with no whitespace at either end trims to itself.
pub proof fn lemma_trim_no_edge_ws(s: Seq<char>)
    requires
        s.len() > 0 ==> !is_ws(s[0]) && !is_ws(s[s.len() - 1]),
    ensures
        trim(s) == s,
{
    if s.len() > 0 {
        assert(ws_start(s, 0) == 0);
        assert(ws_end(s, 0, s.len() as int) == s.len());
    }
    assert(s.subrange(0, s.len() as int) =~= s);
}

/// Bounds `(a, b)` such that `s[a..b]` is `trim(s[lo..hi])`.
pub fn trim_bounds(s: &Vec<char>, lo: usize, hi: usize) -> (r: (usize, usize))
    requires
        lo <= hi <= s.len(),
    ensures
        lo <= r.0 <= r.1 <= hi,
        s@.subrange(r.0 as int, r.1 as int) == trim(s@.subrange(lo as int, hi as int)),
{
    let ghost t = s@.subrange(lo as int, hi as int);
    let mut a = lo;
    while a < hi && char_is_ws(s[a])
        invariant
            lo <= a <= hi <= s.len(),
            t == s@.subrange(lo as int, hi as int),
            ws_start(t, (a - lo) as int) == ws_start(t, 0),
        decreases hi - a,
    {
        a = a + 1;
    }
    let mut b = hi;
    while b > a && char_is_ws(s[b - 1])
        invariant
            lo <= a <= b <= hi <= s.len(),
            t == s@.subrange(lo as int, hi as int),
            ws_start(t, 0) == (a - lo) as int,
            ws_end(t, (a - lo) as int, (b - lo) as int) == ws_end(
                t,
                (a - lo) as int,
                (hi - lo) as int,
            ),
        decreases b - a,
    {
        b = b - 1;
    }
    assert(s@.subrange(a as int, b as int) =~= t.subrange((a - lo) as int, (b - lo) as int));
    (a, b)
}

// ── lines ──────────────────────────────────────────────────────────────

/// Index of the first `'\n'` at or after `i`, or `s.len()`.
pub open spec fn next_nl(s: Seq<char>, i: int) -> int
    decreases s.len() - i,
{
    if i >= s.len() {
        s.len() as int
    } else if s[i] == '\n' {
        i
    } else {
        next_nl(s, i + 1)
    }
}

/// The line that starts at `i`: up to the next `'\n'`, with a `'\r'`
/// dropped when it directly precedes that `'\n'`.
pub open spec fn line_at(s: Seq<char>, i: int) -> Seq<char> {
    let j = next_nl(s, i);
    let raw = s.subrange(i, j);
    if j < s.len() && raw.len() > 0 && raw.last() == '\r' {
        raw.drop_last()
    } else {
        raw
    }
}

/// Lines of `s` starting at index `i`.
pub open spec fn lines_from(s: Seq<char>, i: int) -> Seq<Seq<char>>
    decreases s.len() + 1 - i,
{
    if i >= s.len() || i < 0 {
        Seq::empty()
    } else {
        proof {
            lemma_next_nl_bounds(s, i);
        }
        seq![line_at(s, i)] + lines_from(s, next_nl(s, i) + 1)
    }
}

/// The lines of `s`, as `str::lines` yields them: split at `'\n'` or
/// `"\r\n"`, no line for a final terminator, none at all for `""`.
pub open spec fn lines(s: Seq<char>) -> Seq<Seq<char>> {
    lines_from(s, 0)
}

pub proof fn lemma_next_nl_bounds(s: Seq<char>, i: int)
    requires
        0 <= i,
    ensures
        i <= s.len() ==> i <= next_nl(s, i) <= s.len(),
        i > s.len() ==> next_nl(s, i) == s.len(),
        next_nl(s, i) < s.len() ==> s[next_nl(s, i)] == '\n',
        forall|k: int| i <= k < next_nl(s, i) ==> s[k] != '\n',
    decreases s.len() - i,
{
    if i < s.len() && s[i] != '\n' {
        lemma_next_nl_bounds(s, i + 1);
    }
}

/// Index one past the line that starts at `i` (before its terminator).
pub fn find_nl(s: &Vec<char>, i: usize) -> (j: usize)
    requires
        i <= s.len(),
    ensures
        j == next_nl(s@, i as int),
        i <= j <= s.len(),
{
    let mut j = i;
    while j < s.len() && s[j] != '\n'
        invariant
            i <= j <= s.len(),
            next_nl(s@, j as int) == next_nl(s@, i as int),
        decreases s.len() - j,
    {
        j = j + 1;
    }
    j
}

/// `(start, end)` of every line of `s` (see [`lines`]).
pub fn line_bounds(s: &Vec<char>) -> (r: Vec<(usize, usize)>)
    ensures
        r.len() == lines(s@).len(),
        forall|k: int| #![trigger r[k]] 0 <= k < r.len() ==> r[k].0 <= r[k].1 <= s.len(),
        forall|k: int|
            0 <= k < r.len() ==> #[trigger] s@.subrange(r[k].0 as int, r[k].1 as int) == lines(
                s@,
            )[k],
{
    let mut r: Vec<(usize, usize)> = Vec::new();
    let mut i: usize = 0;
    while i < s.len()
        invariant
            i <= s.len(),
            lines(s@) == r@.map_values(|p: (usize, usize)| s@.subrange(p.0 as int, p.1 as int))
                + lines_from(s@, i as int),
            forall|k: int| #![trigger r[k]] 0 <= k < r.len() ==> r[k].0 <= r[k].1 <= s.len(),
        decreases s.len() - i,
    {
        let j = find_nl(s, i);
        let mut e = j;
        if j < s.len() && j > i && s[j - 1] == '\r' {
            e = j - 1;
        }
        proof {
            lemma_next_nl_bounds(s@, i as int);
            let raw = s@.subrange(i as int, j as int);
            if j < s.len() && j > i && s@[j - 1] == '\r' {
                assert(raw.drop_last() =~= s@.subrange(i as int, e as int));
            }
            assert(s@.subrange(i as int, e as int) == line_at(s@, i as int));
        }
        let ghost old_r = r@;
        r.push((i, e));
        proof {
            assert(r@.map_values(|p: (usize, usize)| s@.subrange(p.0 as int, p.1 as int))
                =~= old_r.map_values(|p: (usize, usize)| s@.subrange(p.0 as int, p.1 as int))
                + seq![line_at(s@, i as int)]);
        }
        if j >= s.len() {
            i = s.len();
        } else {
            i = j + 1;
        }
        proof {
            assert(lines_from(s@, i as int) == lines_from(s@, (j + 1) as int));
        }
    }
    proof {
        assert(lines(s@) =~= r@.map_values(
            |p: (usize, usize)| s@.subrange(p.0 as int, p.1 as int),
        ));
        assert forall|k: int| 0 <= k < r.len() implies #[trigger] s@.subrange(
            r[k].0 as int,
            r[k].1 as int,
        ) == lines(s@)[k] by {
            assert(lines(s@)[k] == r@.map_values(
                |p: (usize, usize)| s@.subrange(p.0 as int, p.1 as int),
            )[k]);
        }
    }
    r
}

/// The characters of `s`, in order.
pub fn to_chars(s: &str) -> (v: Vec<char>)
    ensures
        v@ == s@,
{
    let mut v: Vec<char> = Vec::new();
    for c in it: s.chars()
        invariant
            v@ == it.seq().take(it.index() as int),
            it.seq() == s@,
    {
        v.push(c);
    }
    v
}

/// A copy of `s[lo..hi]`.
pub fn slice_chars(s: &Vec<char>, lo: usize, hi: usize) -> (v: Vec<char>)
    requires
        lo <= hi <= s.len(),
    ensures
        v@ == s@.subrange(lo as int, hi as int),
{
    let mut v: Vec<char> = Vec::new();
    let mut k = lo;
    while k < hi
        invariant
            lo <= k <= hi <= s.len(),
            v@ == s@.subrange(lo as int, k as int),
        decreases hi - k,
    {
        v.push(s[k]);
        k = k + 1;
        assert(v@ =~= s@.subrange(lo as int, k as int));
    }
    v
}

/// The string whose characters are `v`.
///
/// Wraps `FromIterator<char>` for `String` (`v.iter().collect()`), which
/// std documents as concatenating the characters in order.
#[verifier::external_body]
pub fn string_from_chars(v: &[char]) -> (s: String)
    ensures
        s@ == v@,
{
    v.iter().collect()
}

/// Appends one character (`String::push`, documented to append `c` to the
/// end of the string).
#[verifier::external_body]
pub fn push_char(s: &mut String, c: char)
    ensures
        final(s)@ == old(s)@.push(c),
{
    s.push(c);
}

/// `s[lo..hi]` as a new `String`.
pub fn substring(s: &Vec<char>, lo: usize, hi: usize) -> (r: String)
    requires
        lo <= hi <= s.len(),
    ensures
        r@ == s@.subrange(lo as int, hi as int),
{
    let v = slice_chars(s, lo, hi);
    string_from_chars(v.as_slice())
}

/// Character-wise equality of two strings.
pub fn str_eq(a: &str, b: &str) -> (r: bool)
    ensures
        r == (a@ == b@),
{
    let x = to_chars(a);
    let y = to_chars(b);
    chars_eq(&x, &y)
}

pub fn chars_eq(x: &Vec<char>, y: &Vec<char>) -> (r: bool)
    ensures
        r == (x@ == y@),
{
    if x.len() != y.len() {
        return false;
    }
    let mut k: usize = 0;
    while k < x.len()
        invariant
            x.len() == y.len(),
            k <= x.len(),
            x@.take(k as int) == y@.take(k as int),
        decreases x.len() - k,
    {
        if x[k] != y[k] {
            assert(x@[k as int] != y@[k as int]);
            return false;
        }
        k = k + 1;
        assert(x@.take(k as int) =~= y@.take(k as int));
    }
    assert(x@ =~= x@.take(k as int));
    assert(y@ =~= y@.take(k as int));
    true
}

/// `p` is a prefix of `s`.
pub open spec fn has_prefix(s: Seq<char>, p: Seq<char>) -> bool {
    p.len() <= s.len() && s.take(p.len() as int) == p
}

/// The decimal rendering of `n`, most significant digit first, no
/// leading zeros (`"0"` for zero).
pub open spec fn decimal(n: nat) -> Seq<char>
    decreases n,
{
    if n < 10 {
        seq![digit_char(n)]
    } else {
        decimal(n / 10).push(digit_char(n % 10))
    }
}

pub open spec fn digit_char(d: nat) -> char {
    if d == 0 { '0' }
    else if d == 1 { '1' }
    else if d == 2 { '2' }
    else if d == 3 { '3' }
    else if d == 4 { '4' }
    else if d == 5 { '5' }
    else if d == 6 { '6' }
    else if d == 7 { '7' }
    else if d == 8 { '8' }
    else { '9' }
}

pub fn digit_to_char(d: u64) -> (c: char)
    requires
        d < 10,
    ensures
        c == digit_char(d as nat),
{
    if d == 0 { '0' }
    else if d == 1 { '1' }
    else if d == 2 { '2' }
    else if d == 3 { '3' }
    else if d == 4 { '4' }
    else if d == 5 { '5' }
    else if d == 6 { '6' }
    else if d == 7 { '7' }
    else if d == 8 { '8' }
    else { '9' }
}

/// Appends the decimal rendering of `n` to `s`.
pub fn push_decimal(s: &mut String, n: u64)
    ensures
        final(s)@ == old(s)@ + decimal(n as nat),
    decreases n,
{
    if n < 10 {
        push_char(s, digit_to_char(n));
        assert(decimal(n as nat) == seq![digit_char(n as nat)]);
        assert(final(s)@ =~= old(s)@ + decimal(n as nat));
    } else {
        push_decimal(s, n / 10);
        push_char(s, digit_to_char(n % 10));
        assert(final(s)@ =~= old(s)@ + decimal(n as nat));
    }
}

} // verus!

verus! {

pub proof fn lemma_decimal_nonempty(n: nat)
    ensures
        decimal(n).len() > 0,
    decreases n,
{
    if n >= 10 {
        lemma_decimal_nonempty(n / 10);
    }
}

} // verus!
