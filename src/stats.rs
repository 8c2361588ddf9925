//! Summary statistics over the durations of successful trials.
//!
//! Durations are whole nanoseconds. Everything here is exact integer
//! arithmetic; turning the summary into seconds is left to the caller.
use vstd::prelude::*;

verus! {

/// Sum of the samples.
pub open spec fn total_of(s: Seq<u64>) -> int
    decreases s.len(),
{
    if s.len() == 0 {
        0
    } else {
        total_of(s.drop_last()) + s.last()
    }
}

/// Sum of the squares of the samples.
pub open spec fn squares_of(s: Seq<u64>) -> int
    decreases s.len(),
{
    if s.len() == 0 {
        0
    } else {
        squares_of(s.drop_last()) + s.last() * s.last()
    }
}

/// Smallest sample; zero for no samples.
pub open spec fn min_of(s: Seq<u64>) -> int
    decreases s.len(),
{
    if s.len() == 0 {
        0
    } else if s.len() == 1 {
        s[0] as int
    } else {
        let m = min_of(s.drop_last());
        if s.last() < m { s.last() as int } else { m }
    }
}

/// Largest sample; zero for no samples.
pub open spec fn max_of(s: Seq<u64>) -> int
    decreases s.len(),
{
    if s.len() == 0 {
        0
    } else if s.len() == 1 {
        s[0] as int
    } else {
        let m = max_of(s.drop_last());
        if s.last() > m { s.last() as int } else { m }
    }
}

/// `n` times the sum of squared deviations from the mean:
/// `n * sum(x^2) - (sum x)^2`. Zero for fewer than two samples.
/// The sample variance (Bessel's correction) is `spread / (n * (n - 1))`.
pub open spec fn spread_of(s: Seq<u64>) -> int {
    if s.len() < 2 {
        0
    } else {
        s.len() * squares_of(s) - total_of(s) * total_of(s)
    }
}

/// The samples are small enough that the summary fits its fields:
/// the count times the longest sample fits in 64 bits.
pub open spec fn fits(s: Seq<u64>) -> bool {
    s.len() * max_of(s) <= u64::MAX
}

/// Sum of squared distances of the samples from `c`.
pub open spec fn deviation_of(s: Seq<u64>, c: int) -> int
    decreases s.len(),
{
    if s.len() == 0 {
        0
    } else {
        deviation_of(s.drop_last(), c) + (s.last() - c) * (s.last() - c)
    }
}

/// Count, total, extremes and spread of a run of durations.
#[derive(Clone, Copy, Debug, PartialEq, Eq)]
pub struct DurationStats {
    pub count: u64,
    pub total: u64,
    pub min: u64,
    pub max: u64,
    pub spread: u128,
}

impl DurationStats {
    /// The summary of the samples `s`.
    pub open spec fn describes(self, s: Seq<u64>) -> bool {
        &&& self.count == s.len()
        &&& self.total == total_of(s)
        &&& self.min == min_of(s)
        &&& self.max == max_of(s)
        &&& self.spread == spread_of(s)
    }

    /// Whether the sample standard deviation is defined as zero
    /// (fewer than two samples).
    pub fn stdev_is_zero(&self) -> (r: bool)
        ensures
            r == (self.count < 2),
    {
        self.count < 2
    }
}

pub proof fn lemma_max_bounds(s: Seq<u64>)
    ensures
        forall|i: int| 0 <= i < s.len() ==> s[i] <= max_of(s),
        s.len() > 0 ==> exists|i: int| 0 <= i < s.len() && s[i] == max_of(s),
        0 <= max_of(s),
    decreases s.len(),
{
    if s.len() > 1 {
        lemma_max_bounds(s.drop_last());
        let t = s.drop_last();
        assert forall|i: int| 0 <= i < s.len() implies s[i] <= max_of(s) by {
            if i < s.len() - 1 {
                assert(s[i] == t[i]);
            }
        }
        if s.last() <= max_of(t) {
            let j = choose|j: int| 0 <= j < t.len() && t[j] == max_of(t);
            assert(s[j] == t[j]);
        } else {
            assert(s[s.len() - 1] == max_of(s));
        }
    } else if s.len() == 1 {
        assert(s[0] == max_of(s));
    }
}

proof fn lemma_min_bounds(s: Seq<u64>)
    ensures
        forall|i: int| 0 <= i < s.len() ==> min_of(s) <= s[i],
        s.len() > 0 ==> exists|i: int| 0 <= i < s.len() && s[i] == min_of(s),
        0 <= min_of(s),
    decreases s.len(),
{
    if s.len() > 1 {
        lemma_min_bounds(s.drop_last());
        let t = s.drop_last();
        assert forall|i: int| 0 <= i < s.len() implies min_of(s) <= s[i] by {
            if i < s.len() - 1 {
                assert(s[i] == t[i]);
            }
        }
        if s.last() >= min_of(t) {
            let j = choose|j: int| 0 <= j < t.len() && t[j] == min_of(t);
            assert(s[j] == t[j]);
        } else {
            assert(s[s.len() - 1] == min_of(s));
        }
    } else if s.len() == 1 {
        assert(s[0] == min_of(s));
    }
}

/// Sums of samples that are all at most `m`.
proof fn lemma_sums_bounded(s: Seq<u64>, m: int)
    requires
        forall|i: int| 0 <= i < s.len() ==> s[i] <= m,
    ensures
        0 <= total_of(s) <= s.len() * m,
        0 <= squares_of(s) <= s.len() * (m * m),
    decreases s.len(),
{
    if s.len() > 0 {
        let t = s.drop_last();
        assert forall|i: int| 0 <= i < t.len() implies t[i] <= m by {
            assert(t[i] == s[i]);
        }
        lemma_sums_bounded(t, m);
        let x = s.last() as int;
        assert(0 <= x <= m);
        assert(x * x <= m * m) by (nonlinear_arith)
            requires
                0 <= x <= m,
        ;
        assert(0 <= x * x) by (nonlinear_arith);
        assert(t.len() * m + m == s.len() * m) by (nonlinear_arith)
            requires
                s.len() == t.len() + 1,
        ;
        assert(t.len() * (m * m) + m * m == s.len() * (m * m)) by (nonlinear_arith)
            requires
                s.len() == t.len() + 1,
        ;
    }
}

/// Expanding the squared distances from `c`.
proof fn lemma_deviation_expand(s: Seq<u64>, c: int)
    ensures
        deviation_of(s, c) == squares_of(s) - 2 * c * total_of(s) + s.len() * c * c,
        deviation_of(s, c) >= 0,
    decreases s.len(),
{
    if s.len() > 0 {
        let t = s.drop_last();
        lemma_deviation_expand(t, c);
        let x = s.last() as int;
        assert((x - c) * (x - c) == x * x - 2 * c * x + c * c) by (nonlinear_arith);
        assert((x - c) * (x - c) >= 0) by (nonlinear_arith);
        assert(t.len() * c * c + c * c == s.len() * c * c) by (nonlinear_arith)
            requires
                s.len() == t.len() + 1,
        ;
        assert(2 * c * total_of(t) + 2 * c * x == 2 * c * (total_of(t) + x)) by (nonlinear_arith);
    }
}

/// `n * sum(x^2) >= (sum x)^2`.
proof fn lemma_spread_nonneg(s: Seq<u64>)
    ensures
        s.len() * squares_of(s) - total_of(s) * total_of(s) >= 0,
    decreases s.len(),
{
    if s.len() > 0 {
        let t = s.drop_last();
        lemma_spread_nonneg(t);
        let x = s.last() as int;
        lemma_deviation_expand(t, x);
        let n = t.len() as int;
        let q = squares_of(t);
        let a = total_of(t);
        assert((n + 1) * (q + x * x) - (a + x) * (a + x) == (n * q - a * a) + (q - 2 * x * a + n
            * x * x)) by (nonlinear_arith);
    }
}

/// A single sample has no spread, and it is its own total, minimum and
/// maximum.
pub proof fn single_sample_has_no_spread(s: Seq<u64>)
    requires
        s.len() == 1,
    ensures
        spread_of(s) == 0,
        total_of(s) == s[0],
        min_of(s) == s[0],
        max_of(s) == s[0],
{
    assert(s.drop_last().len() == 0);
    assert(total_of(s.drop_last()) == 0);
    assert(s.last() == s[0]);
}

/// Two or more samples that are all `v`: the mean is `v` (the total is
/// `count * v`), the minimum and maximum are `v`, and the spread is zero.
pub proof fn identical_samples_have_no_spread(s: Seq<u64>, v: u64)
    requires
        s.len() >= 2,
        forall|i: int| 0 <= i < s.len() ==> s[i] == v,
    ensures
        total_of(s) == s.len() * v,
        min_of(s) == v,
        max_of(s) == v,
        spread_of(s) == 0,
{
    lemma_constant_sums(s, v);
    let n = s.len() as int;
    assert(n * (n * (v * v)) == (n * v) * (n * v)) by (nonlinear_arith);
}

proof fn lemma_constant_sums(s: Seq<u64>, v: u64)
    requires
        forall|i: int| 0 <= i < s.len() ==> s[i] == v,
    ensures
        total_of(s) == s.len() * v,
        squares_of(s) == s.len() * (v * v),
        s.len() > 0 ==> min_of(s) == v && max_of(s) == v,
    decreases s.len(),
{
    if s.len() > 0 {
        let t = s.drop_last();
        assert forall|i: int| 0 <= i < t.len() implies t[i] == v by {
            assert(t[i] == s[i]);
        }
        lemma_constant_sums(t, v);
        assert(t.len() * v + v == s.len() * v) by (nonlinear_arith)
            requires
                s.len() == t.len() + 1,
        ;
        assert(t.len() * (v * v) + v * v == s.len() * (v * v)) by (nonlinear_arith)
            requires
                s.len() == t.len() + 1,
        ;
    }
}

/// No samples: count, total, minimum, maximum and spread are all zero.
pub proof fn no_samples_summarise_to_zero(s: Seq<u64>)
    requires
        s.len() == 0,
    ensures
        total_of(s) == 0,
        min_of(s) == 0,
        max_of(s) == 0,
        spread_of(s) == 0,
{
}

/// Summarises `times`.
pub fn stats(times: &[u64]) -> (r: DurationStats)
    requires
        fits(times@),
    ensures
        r.describes(times@),
{
    let ghost s = times@;
    let n = times.len();
    proof {
        lemma_max_bounds(s);
        lemma_min_bounds(s);
    }
    if n == 0 {
        return DurationStats { count: 0, total: 0, min: 0, max: 0, spread: 0 };
    }
    let ghost m = max_of(s);
    assert(0 <= m <= u64::MAX) by {
        let k = choose|k: int| 0 <= k < s.len() && s[k] == max_of(s);
    }
    let mut total: u64 = 0;
    let mut squares: u128 = 0;
    let mut lo: u64 = times[0];
    let mut hi: u64 = times[0];
    let mut i: usize = 0;
    while i < n
        invariant
            s == times@,
            n == s.len(),
            n > 0,
            0 <= i <= n,
            fits(s),
            m == max_of(s),
            0 <= m <= u64::MAX,
            forall|j: int| 0 <= j < s.len() ==> s[j] <= m,
            total == total_of(s.take(i as int)),
            squares == squares_of(s.take(i as int)),
            i == 0 ==> lo == s[0] && hi == s[0],
            i > 0 ==> lo == min_of(s.take(i as int)) && hi == max_of(s.take(i as int)),
        decreases n - i,
    {
        let x = times[i];
        let ghost p = s.take(i as int);
        let ghost grown = s.take(i + 1);
        assert(grown.drop_last() == p);
        assert(grown.last() == x);
        proof {
            assert forall|j: int| 0 <= j < grown.len() implies grown[j] <= m by {
                assert(grown[j] == s[j]);
            }
            lemma_sums_bounded(grown, m);
            assert((i + 1) * m <= n * m) by (nonlinear_arith)
                requires
                    i + 1 <= n,
                    m >= 0,
            ;
            assert(n * (m * m) <= (n * m) * m) by (nonlinear_arith);
            assert((n * m) * m <= u64::MAX * u64::MAX) by (nonlinear_arith)
                requires
                    n * m <= u64::MAX,
                    0 <= m <= u64::MAX,
                    n >= 1,
            ;
            assert((i + 1) * (m * m) <= n * (m * m)) by (nonlinear_arith)
                requires
                    i + 1 <= n,
            ;
            assert(x * x <= m * m) by (nonlinear_arith)
                requires
                    x <= m,
            ;
        }
        total = total + x;
        squares = squares + (x as u128) * (x as u128);
        if i == 0 {
            assert(grown.len() == 1);
        } else {
            if x < lo {
                lo = x;
            }
            if x > hi {
                hi = x;
            }
        }
        i = i + 1;
    }
    assert(s.take(n as int) == s);
    let count = n as u64;
    let mut spread: u128 = 0;
    if n >= 2 {
        proof {
            lemma_sums_bounded(s, m);
            lemma_spread_nonneg(s);
            let q = squares as int;
            let a = total as int;
            assert(n * q <= n * (n * (m * m))) by (nonlinear_arith)
                requires
                    q <= n * (m * m),
                    n >= 0,
            ;
            assert(n * (n * (m * m)) == (n * m) * (n * m)) by (nonlinear_arith);
            assert((n * m) * (n * m) <= u64::MAX * u64::MAX) by (nonlinear_arith)
                requires
                    0 <= n * m <= u64::MAX,
            ;
            assert(a * a <= u64::MAX * u64::MAX) by (nonlinear_arith)
                requires
                    0 <= a <= u64::MAX,
            ;
        }
        let nq = (n as u128) * squares;
        let aa = (total as u128) * (total as u128);
        spread = nq - aa;
    }
    DurationStats { count, total, min: lo, max: hi, spread }
}

} // verus!
