//! Reading the process's peak memory from the text of its status report,
//! a list of `Key: value` lines such as `VmPeak:   123456 kB`.
use vstd::prelude::*;

verus! {

/// Unicode white space, as `char::is_whitespace` knows it.
pub open spec fn is_space(c: char) -> bool {
    let u = c as u32;
    ||| 0x09 <= u <= 0x0D
    ||| u == 0x20
    ||| u == 0x85
    ||| u == 0xA0
    ||| u == 0x1680
    ||| 0x2000 <= u <= 0x200A
    ||| u == 0x2028
    ||| u == 0x2029
    ||| u == 0x202F
    ||| u == 0x205F
    ||| u == 0x3000
}

/// End of the line that starts at `i`: the next `'\n'`, or the end of `s`.
pub open spec fn line_end(s: Seq<char>, i: int) -> int
    decreases s.len() - i,
{
    if i >= s.len() {
        s.len() as int
    } else if s[i] == '\n' {
        i
    } else {
        line_end(s, i + 1)
    }
}

/// First position from `i` on, before `e`, that holds white space (or `e`).
pub open spec fn word_end(s: Seq<char>, i: int, e: int) -> int
    decreases e - i,
{
    if i >= e {
        e
    } else if is_space(s[i]) {
        i
    } else {
        word_end(s, i + 1, e)
    }
}

/// First position from `i` on, before `e`, that holds no white space (or `e`).
pub open spec fn space_end(s: Seq<char>, i: int, e: int) -> int
    decreases e - i,
{
    if i >= e {
        e
    } else if is_space(s[i]) {
        space_end(s, i + 1, e)
    } else {
        i
    }
}

/// An ASCII decimal digit.
pub open spec fn is_digit(c: char) -> bool {
    0x30 <= c as u32 <= 0x39
}

/// Value of a run of decimal digits.
pub open spec fn digits_value(d: Seq<char>) -> int
    decreases d.len(),
{
    if d.len() == 0 {
        0
    } else {
        digits_value(d.drop_last()) * 10 + (d.last() as u32 - 0x30)
    }
}

/// The digits of a token that `u64`'s parser reads: the token without a
/// leading `'+'`.
pub open spec fn unsigned_digits(t: Seq<char>) -> Seq<char> {
    if t.len() > 0 && t[0] == '+' {
        t.drop_first()
    } else {
        t
    }
}

/// The number a token denotes as a `u64`: an optional `'+'` and one or more
/// decimal digits whose value fits; `None` for anything else.
pub open spec fn parsed_u64(t: Seq<char>) -> Option<u64> {
    let d = unsigned_digits(t);
    if d.len() > 0 && (forall|i: int| 0 <= i < d.len() ==> is_digit(d[i])) && digits_value(d)
        <= u64::MAX {
        Some(digits_value(d) as u64)
    } else {
        None
    }
}

/// The key that marks the peak virtual memory line.
pub open spec fn peak_key() -> Seq<char> {
    seq!['V', 'm', 'P', 'e', 'a', 'k', ':']
}

/// Reading of the line `[a, e)` of `s`: when it starts with the key and has
/// a second white-space separated field, that field as a number (zero when
/// it is not one); otherwise nothing.
pub open spec fn line_reading(s: Seq<char>, a: int, e: int) -> Option<u64> {
    if e - a >= 7 && s.subrange(a, a + 7) == peak_key() {
        let b = space_end(s, word_end(s, a, e), e);
        if b < e {
            match parsed_u64(s.subrange(b, word_end(s, b, e))) {
                Some(v) => Some(v),
                None => Some(0u64),
            }
        } else {
            None
        }
    } else {
        None
    }
}

/// Peak memory in kB read from the lines of `s` from position `a` on: the
/// reading of the first line that has one, else zero.
pub open spec fn peak_from(s: Seq<char>, a: int) -> u64
    decreases s.len() - a via peak_from_decreases
{
    if a < 0 || a > s.len() {
        0
    } else {
        let e = line_end(s, a);
        match line_reading(s, a, e) {
            Some(v) => v,
            None => if e < s.len() {
                peak_from(s, e + 1)
            } else {
                0
            },
        }
    }
}

#[via_fn]
proof fn peak_from_decreases(s: Seq<char>, a: int) {
    if 0 <= a <= s.len() {
        lemma_line_end_bounds(s, a);
    }
}

/// Peak memory in kB that the status report `s` gives.
pub open spec fn peak_kb(s: Seq<char>) -> u64 {
    peak_from(s, 0)
}

fn space(c: char) -> (r: bool)
    ensures
        r == is_space(c),
{
    let u = c as u32;
    (0x09 <= u && u <= 0x0D) || u == 0x20 || u == 0x85 || u == 0xA0 || u == 0x1680 || (0x2000
        <= u && u <= 0x200A) || u == 0x2028 || u == 0x2029 || u == 0x202F || u == 0x205F || u
        == 0x3000
}

proof fn lemma_line_end_bounds(s: Seq<char>, i: int)
    requires
        0 <= i <= s.len(),
    ensures
        i <= line_end(s, i) <= s.len(),
        line_end(s, i) < s.len() ==> s[line_end(s, i)] == '\n',
    decreases s.len() - i,
{
    if i < s.len() && s[i] != '\n' {
        lemma_line_end_bounds(s, i + 1);
    }
}

proof fn lemma_word_end_bounds(s: Seq<char>, i: int, e: int)
    requires
        i <= e,
    ensures
        i <= word_end(s, i, e) <= e,
    decreases e - i,
{
    if i < e && !is_space(s[i]) {
        lemma_word_end_bounds(s, i + 1, e);
    }
}

proof fn lemma_space_end_bounds(s: Seq<char>, i: int, e: int)
    requires
        i <= e,
    ensures
        i <= space_end(s, i, e) <= e,
    decreases e - i,
{
    if i < e && is_space(s[i]) {
        lemma_space_end_bounds(s, i + 1, e);
    }
}

fn find_line_end(s: &str, n: usize, i: usize) -> (r: usize)
    requires
        n == s@.len(),
        i <= n,
    ensures
        r == line_end(s@, i as int),
{
    let mut j = i;
    while j < n && s.get_char(j) != '\n'
        invariant
            n == s@.len(),
            i <= j <= n,
            line_end(s@, i as int) == line_end(s@, j as int),
        decreases n - j,
    {
        j = j + 1;
    }
    j
}

fn find_word_end(s: &str, i: usize, e: usize) -> (r: usize)
    requires
        i <= e <= s@.len(),
    ensures
        r == word_end(s@, i as int, e as int),
{
    let mut j = i;
    while j < e && !space(s.get_char(j))
        invariant
            i <= j <= e <= s@.len(),
            word_end(s@, i as int, e as int) == word_end(s@, j as int, e as int),
        decreases e - j,
    {
        j = j + 1;
    }
    j
}

fn find_space_end(s: &str, i: usize, e: usize) -> (r: usize)
    requires
        i <= e <= s@.len(),
    ensures
        r == space_end(s@, i as int, e as int),
{
    let mut j = i;
    while j < e && space(s.get_char(j))
        invariant
            i <= j <= e <= s@.len(),
            space_end(s@, i as int, e as int) == space_end(s@, j as int, e as int),
        decreases e - j,
    {
        j = j + 1;
    }
    j
}

/// A longer run of digits is worth at least as much as its prefix.
proof fn lemma_digits_prefix(d: Seq<char>, k: int)
    requires
        0 <= k <= d.len(),
        forall|i: int| 0 <= i < d.len() ==> is_digit(d[i]),
    ensures
        0 <= digits_value(d.subrange(0, k)) <= digits_value(d),
    decreases d.len(),
{
    if k < d.len() {
        let t = d.drop_last();
        assert(d.subrange(0, k) =~= t.subrange(0, k));
        lemma_digits_prefix(t, k);
    } else {
        assert(d.subrange(0, k) =~= d);
        if d.len() > 0 {
            lemma_digits_prefix(d.drop_last(), d.len() - 1);
            assert(d.drop_last().subrange(0, d.len() - 1) =~= d.drop_last());
        }
    }
}

/// The token `s[b..w)` read as a `u64`.
fn parse_field(s: &str, b: usize, w: usize) -> (r: Option<u64>)
    requires
        b <= w <= s@.len(),
    ensures
        r == parsed_u64(s@.subrange(b as int, w as int)),
{
    let ghost t = s@.subrange(b as int, w as int);
    let mut i = b;
    if i < w && s.get_char(i) == '+' {
        i = i + 1;
    }
    let ghost d = s@.subrange(i as int, w as int);
    assert(d =~= unsigned_digits(t));
    if i == w {
        return None;
    }
    let mut v: u64 = 0;
    let mut j = i;
    while j < w
        invariant
            b <= i <= j <= w <= s@.len(),
            d == s@.subrange(i as int, w as int),
            d == unsigned_digits(t),
            t == s@.subrange(b as int, w as int),
            forall|k: int| 0 <= k < j - i ==> is_digit(d[k]),
            v == digits_value(d.subrange(0, j - i)),
        decreases w - j,
    {
        let c = s.get_char(j);
        assert(c == d[j - i]);
        let u = c as u32;
        if u < 0x30 || u > 0x39 {
            assert(!is_digit(d[j - i]));
            assert(!(forall|k: int| 0 <= k < d.len() ==> is_digit(d[k])));
            assert(parsed_u64(t) is None);
            return None;
        }
        let x = (u - 0x30) as u64;
        assert(d.subrange(0, j - i + 1).drop_last() =~= d.subrange(0, j - i));
        assert(x == d[j - i] as u32 - 0x30);
        let ghost next = d.subrange(0, j - i + 1);
        assert(next.last() == d[j - i]);
        assert(digits_value(next) == v * 10 + x);
        if v > (u64::MAX - x) / 10 {
            proof {
                assert(v * 10 + x > u64::MAX) by (nonlinear_arith)
                    requires
                        v > (u64::MAX - x) / 10,
                        0 <= x <= 9,
                ;
                if forall|k: int| 0 <= k < d.len() ==> is_digit(d[k]) {
                    lemma_digits_prefix(d, j - i + 1);
                    assert(digits_value(d) > u64::MAX);
                }
                assert(parsed_u64(t) is None);
            }
            return None;
        }
        assert(v * 10 + x <= u64::MAX) by (nonlinear_arith)
            requires
                v <= (u64::MAX - x) / 10,
                0 <= x <= 9,
        ;
        v = v * 10 + x;
        j = j + 1;
    }
    assert(d.subrange(0, j - i) =~= d);
    Some(v)
}

/// Whether the line `[a, e)` starts with the peak key.
fn has_peak_key(s: &str, a: usize, e: usize) -> (r: bool)
    requires
        a <= e <= s@.len(),
    ensures
        r == (e - a >= 7 && s@.subrange(a as int, a + 7) == peak_key()),
{
    if e - a < 7 {
        return false;
    }
    let r = s.get_char(a) == 'V' && s.get_char(a + 1) == 'm' && s.get_char(a + 2) == 'P'
        && s.get_char(a + 3) == 'e' && s.get_char(a + 4) == 'a' && s.get_char(a + 5) == 'k'
        && s.get_char(a + 6) == ':';
    proof {
        let w = s@.subrange(a as int, a + 7);
        if r {
            assert(w =~= peak_key());
        } else {
            if w == peak_key() {
                assert(w[0] == 'V' && w[1] == 'm' && w[2] == 'P' && w[3] == 'e');
                assert(w[4] == 'a' && w[5] == 'k' && w[6] == ':');
            }
        }
    }
    r
}

/// What the line `[a, e)` says of the peak, if anything.
fn read_line(s: &str, a: usize, e: usize) -> (r: Option<u64>)
    requires
        a <= e <= s@.len(),
    ensures
        r == line_reading(s@, a as int, e as int),
{
    if !has_peak_key(s, a, e) {
        return None;
    }
    let w = find_word_end(s, a, e);
    proof {
        lemma_word_end_bounds(s@, a as int, e as int);
    }
    let b = find_space_end(s, w, e);
    proof {
        lemma_space_end_bounds(s@, w as int, e as int);
    }
    if b >= e {
        return None;
    }
    let w2 = find_word_end(s, b, e);
    proof {
        lemma_word_end_bounds(s@, b as int, e as int);
    }
    match parse_field(s, b, w2) {
        Some(v) => Some(v),
        None => Some(0),
    }
}

/// Peak memory in kB from the text of a process status report: the second
/// field of the first line that starts with `VmPeak:` and has one, read as
/// a number, and zero where that field is not a number or no such line
/// exists.
pub fn peak_memory_kb(status: &str) -> (r: u64)
    ensures
        r == peak_kb(status@),
{
    let n = status.unicode_len();
    let mut a: usize = 0;
    loop
        invariant
            n == status@.len(),
            0 <= a <= n,
            peak_from(status@, a as int) == peak_kb(status@),
        decreases n - a,
    {
        let e = find_line_end(status, n, a);
        proof {
            lemma_line_end_bounds(status@, a as int);
        }
        match read_line(status, a, e) {
            Some(v) => {
                return v;
            },
            None => {},
        }
        if e < n {
            a = e + 1;
        } else {
            return 0;
        }
    }
}

} // verus!
