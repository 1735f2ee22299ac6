//! GPU frequency and utilisation from performance-state residencies.
//!
//! A residency sample lists, for each performance state of the GPU, its name and the
//! time spent in it. The states that follow the idle ones line up with the
//! frequency table: the `i`-th active state runs at `freqs[i]` MHz. All arithmetic
//! is exact: ratios come back as fractions, and the caller turns them into floats.

use vstd::prelude::*;

verus! {

/// The absolute value of `x`.
pub open spec fn abs(x: int) -> int {
    if x < 0 {
        -x
    } else {
        x
    }
}

/// `a / b` rounded toward zero, as Rust's `/` on signed integers.
pub open spec fn trunc_div(a: int, b: int) -> int {
    if (a < 0) == (b < 0) {
        abs(a) / abs(b)
    } else {
        -(abs(a) / abs(b))
    }
}

/// `a / b` rounded toward zero, and zero where `b` is zero.
pub open spec fn spec_zero_div(a: int, b: int) -> int {
    if b == 0 {
        0
    } else {
        trunc_div(a, b)
    }
}

/// Divides `a` by `b`, rounding toward zero; a zero divisor gives zero instead of a panic.
pub fn zero_div(a: i128, b: i128) -> (q: i128)
    requires
        !(a == i128::MIN && b == -1),
    ensures
        q == spec_zero_div(a as int, b as int),
{
    if b == 0 {
        0
    } else if b > 0 {
        let q = a / b;
        proof {
            if a >= 0 {
                assert(q == (a as int) / (b as int));
            } else {
                assert(q == -((-a as int) / (b as int)));
            }
        }
        q
    } else if b == i128::MIN {
        if a == i128::MIN {
            1
        } else {
            assert(abs(a as int) / abs(b as int) == 0) by (nonlinear_arith)
                requires
                    abs(a as int) < abs(b as int),
                    0 <= abs(a as int),
            ;
            0
        }
    } else {
        let p = a / -b;
        let ghost aa = abs(a as int);
        let ghost bb = -(b as int);
        assert(aa / bb <= aa) by (nonlinear_arith)
            requires
                aa >= 0,
                bb >= 1,
        ;
        assert(aa / bb >= 0) by (nonlinear_arith)
            requires
                aa >= 0,
                bb >= 1,
        ;
        proof {
            if a >= 0 {
                assert(p == (a as int) / -(b as int));
            } else {
                assert(p == -((-a as int) / -(b as int)));
            }
            if aa == -(i128::MIN as int) {
                assert(aa / bb < aa) by (nonlinear_arith)
                    requires
                        aa > 0,
                        bb > 1,
                ;
            }
        }
        -p
    }
}

/// The sum of a sequence of integers.
pub open spec fn sum(s: Seq<int>) -> int
    decreases s.len(),
{
    if s.len() == 0 {
        0
    } else {
        sum(s.drop_last()) + s.last()
    }
}

/// The residency values of a sample, in order.
pub open spec fn residency_values(items: Seq<(String, i64)>) -> Seq<int> {
    items.map_values(|p: (String, i64)| p.1 as int)
}

/// Names of the states in which the GPU does no work.
pub open spec fn is_idle_state(name: Seq<char>) -> bool {
    name == "IDLE"@ || name == "DOWN"@ || name == "OFF"@
}

/// The first index at or after `i` whose state is not idle, or 0 when there is none.
pub open spec fn first_active_from(items: Seq<(String, i64)>, i: int) -> int
    decreases items.len() - i,
{
    if i < 0 || i >= items.len() {
        0
    } else if !is_idle_state(items[i].0@) {
        i
    } else {
        first_active_from(items, i + 1)
    }
}

/// Index of the first active (non-idle) state of a sample; 0 when every state is idle.
pub open spec fn active_offset(items: Seq<(String, i64)>) -> int {
    first_active_from(items, 0)
}

/// How many active states are matched with a frequency: those that exist both from the
/// active offset on and in the frequency table.
pub open spec fn window_len(items: Seq<(String, i64)>, freq_count: int) -> int {
    let rest = items.len() - active_offset(items);
    if freq_count < rest {
        freq_count
    } else {
        rest
    }
}

/// Time spent in the active states that have a frequency.
pub open spec fn usage_of(items: Seq<(String, i64)>, freqs: Seq<u32>) -> int {
    let off = active_offset(items);
    sum(residency_values(items).subrange(off, off + window_len(items, freqs.len() as int)))
}

/// Time spent in all states.
pub open spec fn total_of(items: Seq<(String, i64)>) -> int {
    sum(residency_values(items))
}

/// The `i`-th term of the weighted sum: residency of the `i`-th active state times its
/// frequency.
pub open spec fn weighted_term(items: Seq<(String, i64)>, freqs: Seq<u32>, i: int) -> int {
    items[active_offset(items) + i].1 * freqs[i]
}

/// The first `j` terms of the weighted sum.
pub open spec fn weighted_prefix(items: Seq<(String, i64)>, freqs: Seq<u32>, j: int) -> int {
    sum(Seq::new(j as nat, |i: int| weighted_term(items, freqs, i)))
}

/// Residency-weighted sum of the frequencies (states past the end of the sample count
/// with residency zero and add nothing).
pub open spec fn weighted_of(items: Seq<(String, i64)>, freqs: Seq<u32>) -> int {
    weighted_prefix(items, freqs, window_len(items, freqs.len() as int))
}

/// Clamps an integer into the range of `u32`, as a float-to-`u32` cast saturates.
pub open spec fn clamp_u32(x: int) -> int {
    if x < 0 {
        0
    } else if x > u32::MAX {
        u32::MAX as int
    } else {
        x
    }
}

/// Average frequency in MHz, rounded toward zero: the weighted sum over the usage.
pub open spec fn avg_mhz_of(items: Seq<(String, i64)>, freqs: Seq<u32>) -> int {
    clamp_u32(spec_zero_div(weighted_of(items, freqs), usage_of(items, freqs)))
}

/// The fraction `n / d` with a positive denominator; zero where `d` is zero.
pub open spec fn ratio(n: int, d: int) -> (int, int) {
    if d == 0 {
        (0, 1)
    } else if d < 0 {
        (-n, -d)
    } else {
        (n, d)
    }
}

/// Share of the whole sample spent in the active states that have a frequency.
pub open spec fn active_ratio(items: Seq<(String, i64)>, freqs: Seq<u32>) -> (int, int) {
    ratio(usage_of(items, freqs), total_of(items))
}

/// The lowest frequency of the table: its first entry, or 0 for an empty table.
pub open spec fn min_freq_of(freqs: Seq<u32>) -> int {
    if freqs.len() > 0 {
        freqs[0] as int
    } else {
        0
    }
}

/// The highest frequency of the table: its last entry, or 1 for an empty table.
pub open spec fn max_freq_of(freqs: Seq<u32>) -> int {
    if freqs.len() > 0 {
        freqs[freqs.len() - 1] as int
    } else {
        1
    }
}

/// Whether the average frequency `w / u` is at least `m`.
pub open spec fn avg_at_least(w: int, u: int, m: int) -> bool {
    (u > 0 && w >= m * u) || (u < 0 && w <= m * u)
}

/// Utilisation scaled to the top frequency:
/// `max(average, lowest frequency) * active share / highest frequency`, zero where the
/// highest frequency or the usage is zero.
pub open spec fn scaled_ratio(items: Seq<(String, i64)>, freqs: Seq<u32>) -> (int, int) {
    let w = weighted_of(items, freqs);
    let u = usage_of(items, freqs);
    let t = total_of(items);
    let m = min_freq_of(freqs);
    let mx = max_freq_of(freqs);
    if mx == 0 || u == 0 {
        (0, 1)
    } else if avg_at_least(w, u, m) {
        ratio(w, t * mx)
    } else {
        ratio(m * u, t * mx)
    }
}

/// A rational number `num / den`.
#[derive(Clone, Copy, Debug, PartialEq, Eq, Structural)]
pub struct Fraction {
    pub num: i128,
    pub den: i128,
}

impl Fraction {
    /// Whether the fraction is `(n, d)` exactly.
    pub open spec fn is(self, r: (int, int)) -> bool {
        self.num == r.0 && self.den == r.1
    }
}

/// What a residency sample says of the GPU: the average frequency of the active states
/// (MHz), the utilisation scaled to the top frequency, and the active share of the time.
#[derive(Clone, Copy, Debug, PartialEq, Eq, Structural)]
pub struct FreqEstimate {
    pub avg_mhz: u32,
    pub scaled: Fraction,
    pub active: Fraction,
}

/// The most states one sample can list (the count is an `i32`).
pub const MAX_STATES: usize = 2147483647;

/// Finds the first state whose name is none of `IDLE`, `DOWN` and `OFF`; 0 where all are.
pub fn active_state_offset(items: &[(String, i64)]) -> (off: usize)
    ensures
        off == active_offset(items@),
        off <= items@.len(),
        (exists|j: int| 0 <= j < items@.len() && !is_idle_state(#[trigger] items@[j].0@)) ==> {
            &&& off < items@.len()
            &&& !is_idle_state(items@[off as int].0@)
            &&& forall|j: int| 0 <= j < off ==> is_idle_state(#[trigger] items@[j].0@)
        },
        (forall|j: int| 0 <= j < items@.len() ==> is_idle_state(#[trigger] items@[j].0@))
            ==> off == 0,
{
    let idle = "IDLE".to_owned();
    let down = "DOWN".to_owned();
    let off_name = "OFF".to_owned();
    let mut i: usize = 0;
    while i < items.len()
        invariant
            0 <= i <= items@.len(),
            idle@ == "IDLE"@,
            down@ == "DOWN"@,
            off_name@ == "OFF"@,
            forall|j: int| 0 <= j < i ==> is_idle_state(#[trigger] items@[j].0@),
            first_active_from(items@, 0) == first_active_from(items@, i as int),
        decreases items@.len() - i,
    {
        let name = &items[i].0;
        if !(name.eq(&idle) || name.eq(&down) || name.eq(&off_name)) {
            return i;
        }
        i = i + 1;
    }
    assert(first_active_from(items@, i as int) == 0);
    0
}

/// Sums `values[lo..hi]` of a sample.
fn sum_residencies(items: &[(String, i64)], lo: usize, hi: usize) -> (s: i128)
    requires
        lo <= hi <= items@.len(),
        items@.len() <= MAX_STATES,
    ensures
        s == sum(residency_values(items@).subrange(lo as int, hi as int)),
        -0x8000_0000_0000_0000 * (hi - lo) <= s <= 0x8000_0000_0000_0000 * (hi - lo),
{
    let ghost vals = residency_values(items@);
    let mut acc: i128 = 0;
    let mut i: usize = lo;
    while i < hi
        invariant
            lo <= i <= hi <= items@.len(),
            items@.len() <= MAX_STATES,
            vals == residency_values(items@),
            acc == sum(vals.subrange(lo as int, i as int)),
            -0x8000_0000_0000_0000 * (i - lo) <= acc <= 0x8000_0000_0000_0000 * (i - lo),
        decreases hi - i,
    {
        let v = items[i].1;
        assert(vals.subrange(lo as int, i + 1).drop_last() =~= vals.subrange(lo as int, i as int));
        acc = acc + v as i128;
        i = i + 1;
    }
    acc
}

/// Sums the residency-weighted frequencies of the first `k` active states.
fn weighted_sum(items: &[(String, i64)], freqs: &[u32], off: usize, k: usize) -> (s: i128)
    requires
        off == active_offset(items@),
        off + k <= items@.len(),
        k <= freqs@.len(),
        items@.len() <= MAX_STATES,
    ensures
        s == weighted_prefix(items@, freqs@, k as int),
        -0x8000_0000_0000_0000_0000_0000 * k <= s <= 0x8000_0000_0000_0000_0000_0000 * k,
{
    let mut acc: i128 = 0;
    let mut i: usize = 0;
    while i < k
        invariant
            0 <= i <= k,
            off == active_offset(items@),
            off + k <= items@.len(),
            k <= freqs@.len(),
            items@.len() <= MAX_STATES,
            acc == weighted_prefix(items@, freqs@, i as int),
            -0x8000_0000_0000_0000_0000_0000 * i <= acc <= 0x8000_0000_0000_0000_0000_0000 * i,
        decreases k - i,
    {
        let r = items[off + i].1;
        let f = freqs[i];
        assert(-0x8000_0000_0000_0000_0000_0000 <= r as int * f as int
            <= 0x8000_0000_0000_0000_0000_0000) by (nonlinear_arith)
            requires
                -0x8000_0000_0000_0000 <= r < 0x8000_0000_0000_0000,
                0 <= f < 0x1_0000_0000,
        ;
        let term = r as i128 * f as i128;
        assert(Seq::new((i + 1) as nat, |j: int| weighted_term(items@, freqs@, j)).drop_last()
            =~= Seq::new(i as nat, |j: int| weighted_term(items@, freqs@, j)));
        acc = acc + term;
        i = i + 1;
    }
    acc
}

/// Estimates the GPU's average frequency, utilisation and active share from one
/// residency sample and the frequency table (MHz) of its active states.
pub fn calc_freq_from_residencies(items: &[(String, i64)], freqs: &[u32]) -> (e: FreqEstimate)
    requires
        items@.len() <= MAX_STATES,
    ensures
        e.avg_mhz == avg_mhz_of(items@, freqs@),
        e.scaled.is(scaled_ratio(items@, freqs@)),
        e.active.is(active_ratio(items@, freqs@)),
{
    let off = active_state_offset(items);
    let rest = items.len() - off;
    let k = if freqs.len() < rest {
        freqs.len()
    } else {
        rest
    };
    let usage = sum_residencies(items, off, off + k);
    let total = sum_residencies(items, 0, items.len());
    assert(residency_values(items@).subrange(0, items@.len() as int) =~= residency_values(items@));
    let weighted = weighted_sum(items, freqs, off, k);
    let avg = zero_div(weighted, usage);
    let avg_mhz: u32 = if avg < 0 {
        0
    } else if avg > u32::MAX as i128 {
        u32::MAX
    } else {
        avg as u32
    };
    let min_freq: i128 = if freqs.len() > 0 {
        freqs[0] as i128
    } else {
        0
    };
    let max_freq: i128 = if freqs.len() > 0 {
        freqs[freqs.len() - 1] as i128
    } else {
        1
    };
    let active = if total == 0 {
        Fraction { num: 0, den: 1 }
    } else if total < 0 {
        Fraction { num: -usage, den: -total }
    } else {
        Fraction { num: usage, den: total }
    };
    assert(-0x4000_0000_0000_0000_0000_0000_0000_0000 < min_freq * usage
        < 0x4000_0000_0000_0000_0000_0000_0000_0000
        && -0x4000_0000_0000_0000_0000_0000_0000_0000 < total * max_freq
        < 0x4000_0000_0000_0000_0000_0000_0000_0000) by (nonlinear_arith)
        requires
            0 <= min_freq < 0x1_0000_0000,
            0 <= max_freq < 0x1_0000_0000,
            -0x8000_0000_0000_0000 * 0x8000_0000 < usage < 0x8000_0000_0000_0000 * 0x8000_0000,
            -0x8000_0000_0000_0000 * 0x8000_0000 < total < 0x8000_0000_0000_0000 * 0x8000_0000,
    ;
    let scaled = if max_freq == 0 || usage == 0 {
        Fraction { num: 0, den: 1 }
    } else {
        let m_u = min_freq * usage;
        let top = if (usage > 0 && weighted >= m_u) || (usage < 0 && weighted <= m_u) {
            weighted
        } else {
            m_u
        };
        let bottom = total * max_freq;
        if bottom == 0 {
            Fraction { num: 0, den: 1 }
        } else if bottom < 0 {
            Fraction { num: -top, den: -bottom }
        } else {
            Fraction { num: top, den: bottom }
        }
    };
    FreqEstimate { avg_mhz, scaled, active }
}

/// Whether every residency of a sample is non-negative.
pub open spec fn nonneg_residencies(items: Seq<(String, i64)>) -> bool {
    forall|i: int| 0 <= i < items.len() ==> #[trigger] items[i].1 >= 0
}

/// Whether the frequency table never decreases.
pub open spec fn ascending(freqs: Seq<u32>) -> bool {
    forall|i: int, j: int| 0 <= i <= j < freqs.len() ==> freqs[i] <= freqs[j]
}

proof fn lemma_sum_concat(a: Seq<int>, b: Seq<int>)
    ensures
        sum(a + b) == sum(a) + sum(b),
    decreases b.len(),
{
    if b.len() == 0 {
        assert(a + b =~= a);
    } else {
        lemma_sum_concat(a, b.drop_last());
        assert((a + b).drop_last() =~= a + b.drop_last());
    }
}

proof fn lemma_sum_nonneg(s: Seq<int>)
    requires
        forall|i: int| 0 <= i < s.len() ==> s[i] >= 0,
    ensures
        sum(s) >= 0,
    decreases s.len(),
{
    if s.len() > 0 {
        lemma_sum_nonneg(s.drop_last());
    }
}

/// A slice of non-negative values sums to at most the whole.
proof fn lemma_subrange_sum_le(s: Seq<int>, lo: int, hi: int)
    requires
        0 <= lo <= hi <= s.len(),
        forall|i: int| 0 <= i < s.len() ==> s[i] >= 0,
    ensures
        0 <= sum(s.subrange(lo, hi)) <= sum(s),
{
    let a = s.subrange(0, lo);
    let b = s.subrange(lo, hi);
    let c = s.subrange(hi, s.len() as int);
    assert(s =~= a + b + c);
    lemma_sum_concat(a + b, c);
    lemma_sum_concat(a, b);
    lemma_sum_nonneg(a);
    lemma_sum_nonneg(b);
    lemma_sum_nonneg(c);
}

/// With non-negative residencies and frequencies in `[lo, hi]`, the first `j` weighted
/// terms lie between `lo` and `hi` times the residencies they weigh.
proof fn lemma_weighted_prefix_bounds(
    items: Seq<(String, i64)>,
    freqs: Seq<u32>,
    j: int,
    lo: int,
    hi: int,
)
    requires
        nonneg_residencies(items),
        0 <= j <= window_len(items, freqs.len() as int),
        forall|i: int| 0 <= i < freqs.len() ==> lo <= #[trigger] freqs[i] <= hi,
    ensures
        ({
            let off = active_offset(items);
            let used = sum(residency_values(items).subrange(off, off + j));
            &&& lo * used <= weighted_prefix(items, freqs, j) <= hi * used
        }),
    decreases j,
{
    let off = active_offset(items);
    let vals = residency_values(items);
    lemma_offset_in_range(items);
    if j > 0 {
        lemma_weighted_prefix_bounds(items, freqs, j - 1, lo, hi);
        assert(Seq::new(j as nat, |i: int| weighted_term(items, freqs, i)).drop_last()
            =~= Seq::new((j - 1) as nat, |i: int| weighted_term(items, freqs, i)));
        assert(vals.subrange(off, off + j).drop_last() =~= vals.subrange(off, off + j - 1));
        let r = items[off + j - 1].1 as int;
        let f = freqs[j - 1] as int;
        assert(r >= 0);
        assert(lo <= f <= hi);
        assert(lo * r <= r * f <= hi * r) by (nonlinear_arith)
            requires
                r >= 0,
                lo <= f <= hi,
        ;
        let prev = sum(vals.subrange(off, off + j - 1));
        assert(lo * (prev + r) == lo * prev + lo * r) by (nonlinear_arith);
        assert(hi * (prev + r) == hi * prev + hi * r) by (nonlinear_arith);
    } else {
        assert(vals.subrange(off, off) =~= Seq::<int>::empty());
    }
}

/// The active offset is within the sample (or zero for an empty one).
proof fn lemma_offset_in_range(items: Seq<(String, i64)>)
    ensures
        0 <= active_offset(items) <= items.len(),
        items.len() > 0 ==> active_offset(items) < items.len(),
{
    lemma_first_active_in_range(items, 0);
}

proof fn lemma_first_active_in_range(items: Seq<(String, i64)>, i: int)
    requires
        0 <= i,
    ensures
        0 <= first_active_from(items, i),
        items.len() > 0 ==> first_active_from(items, i) < items.len(),
    decreases items.len() - i,
{
    if i < items.len() && is_idle_state(items[i].0@) {
        lemma_first_active_in_range(items, i + 1);
    }
}

/// With non-negative residencies, the active share lies in `[0, 1]`: the time in
/// the active states with a frequency is part of the total time.
pub proof fn lemma_active_share_at_most_one(items: Seq<(String, i64)>, freqs: Seq<u32>)
    requires
        nonneg_residencies(items),
    ensures
        0 <= usage_of(items, freqs) <= total_of(items),
        0 <= active_ratio(items, freqs).0 <= active_ratio(items, freqs).1,
{
    let off = active_offset(items);
    lemma_offset_in_range(items);
    let vals = residency_values(items);
    lemma_subrange_sum_le(vals, off, off + window_len(items, freqs.len() as int));
}

/// With non-negative residencies, some time in the active states, and every
/// frequency of the table in `[lo, hi]`, the average frequency lies in `[lo, hi]`:
/// it is a residency-weighted mean of the table.
pub proof fn lemma_average_within_table(
    items: Seq<(String, i64)>,
    freqs: Seq<u32>,
    lo: int,
    hi: int,
)
    requires
        nonneg_residencies(items),
        usage_of(items, freqs) > 0,
        forall|i: int| 0 <= i < freqs.len() ==> lo <= #[trigger] freqs[i] <= hi,
        0 <= lo,
        hi <= u32::MAX,
    ensures
        lo <= avg_mhz_of(items, freqs) <= hi,
{
    let k = window_len(items, freqs.len() as int);
    lemma_offset_in_range(items);
    lemma_weighted_prefix_bounds(items, freqs, k, lo, hi);
    let w = weighted_of(items, freqs);
    let u = usage_of(items, freqs);
    assert(lo <= w / u <= hi) by (nonlinear_arith)
        requires
            u > 0,
            lo * u <= w <= hi * u,
    ;
}

/// With non-negative residencies and a table that never decreases, the scaled
/// utilisation lies in `[0, 1]`.
pub proof fn lemma_scaled_at_most_one(items: Seq<(String, i64)>, freqs: Seq<u32>)
    requires
        nonneg_residencies(items),
        ascending(freqs),
    ensures
        0 <= scaled_ratio(items, freqs).0 <= scaled_ratio(items, freqs).1,
{
    let w = weighted_of(items, freqs);
    let u = usage_of(items, freqs);
    let t = total_of(items);
    let m = min_freq_of(freqs);
    let mx = max_freq_of(freqs);
    lemma_active_share_at_most_one(items, freqs);
    if mx != 0 && u != 0 {
        let k = window_len(items, freqs.len() as int);
        lemma_offset_in_range(items);
        assert(freqs.len() > 0);
        assert forall|i: int| 0 <= i < freqs.len() implies m <= #[trigger] freqs[i] <= mx by {
            assert(freqs[0] <= freqs[i]);
            assert(freqs[i] <= freqs[freqs.len() - 1]);
        }
        lemma_weighted_prefix_bounds(items, freqs, k, m, mx);
        assert(0 <= m * u <= mx * u <= mx * t) by (nonlinear_arith)
            requires
                0 <= m <= mx,
                0 < u <= t,
        ;
        assert(0 < t * mx) by (nonlinear_arith)
            requires
                0 < t,
                0 < mx,
        ;
        assert(mx * t == t * mx) by (nonlinear_arith);
    }
}

/// Whether `items2` is `items` with the same state names and every residency
/// multiplied by `c`.
pub open spec fn scaled_sample(items: Seq<(String, i64)>, items2: Seq<(String, i64)>, c: int) -> bool {
    &&& items2.len() == items.len()
    &&& forall|i: int|
        #![trigger items2[i]]
        0 <= i < items.len() ==> items2[i].0@ == items[i].0@ && items2[i].1 == c * items[i].1
}

/// Whether two fractions have the same value (both denominators being positive).
pub open spec fn same_value(a: (int, int), b: (int, int)) -> bool {
    a.0 * b.1 == b.0 * a.1
}

proof fn lemma_first_active_same_names(
    items: Seq<(String, i64)>,
    items2: Seq<(String, i64)>,
    c: int,
    i: int,
)
    requires
        scaled_sample(items, items2, c),
        0 <= i,
    ensures
        first_active_from(items, i) == first_active_from(items2, i),
    decreases items.len() - i,
{
    if i < items.len() {
        assert(items2[i].0@ == items[i].0@);
        lemma_first_active_same_names(items, items2, c, i + 1);
    }
}

proof fn lemma_sum_scaled(s: Seq<int>, s2: Seq<int>, c: int)
    requires
        s2.len() == s.len(),
        forall|i: int| 0 <= i < s.len() ==> #[trigger] s2[i] == c * s[i],
    ensures
        sum(s2) == c * sum(s),
    decreases s.len(),
{
    if s.len() > 0 {
        lemma_sum_scaled(s.drop_last(), s2.drop_last(), c);
        assert(s2.last() == c * s.last());
        let a = sum(s.drop_last());
        let b = s.last();
        assert(c * a + c * b == c * (a + b)) by (nonlinear_arith);
    }
}

/// Scaling both terms of a fraction by a positive factor keeps its value.
proof fn lemma_ratio_scale(n: int, d: int, c: int)
    requires
        c > 0,
    ensures
        ratio(c * n, c * d).1 > 0,
        ratio(n, d).1 > 0,
        same_value(ratio(c * n, c * d), ratio(n, d)),
{
    assert(d == 0 <==> c * d == 0) by (nonlinear_arith)
        requires
            c > 0,
    ;
    assert(d < 0 <==> c * d < 0) by (nonlinear_arith)
        requires
            c > 0,
    ;
    assert((c * n) * d == n * (c * d)) by (nonlinear_arith);
    assert((-(c * n)) * (-d) == (-n) * (-(c * d))) by (nonlinear_arith);
}

/// Rounding toward zero is unchanged when both terms are scaled by a positive factor.
proof fn lemma_zero_div_scale(w: int, u: int, c: int)
    requires
        c > 0,
    ensures
        spec_zero_div(c * w, c * u) == spec_zero_div(w, u),
{
    assert(u == 0 <==> c * u == 0) by (nonlinear_arith)
        requires
            c > 0,
    ;
    if u != 0 {
        assert((c * w < 0) == (w < 0) && (c * u < 0) == (u < 0)) by (nonlinear_arith)
            requires
                c > 0,
        ;
        assert(abs(c * w) == c * abs(w) && abs(c * u) == c * abs(u)) by (nonlinear_arith)
            requires
                c > 0,
        ;
        vstd::arithmetic::div_mod::lemma_div_multiples_vanish_quotient(c, abs(w), abs(u));
    }
}

/// Multiplying every residency of a sample by the same positive factor changes none of
/// its estimates: the average frequency is the same, and the active share and the
/// scaled utilisation keep their values. Only the ratios between residencies matter.
pub proof fn lemma_estimate_ignores_residency_scale(
    items: Seq<(String, i64)>,
    items2: Seq<(String, i64)>,
    freqs: Seq<u32>,
    c: int,
)
    requires
        c > 0,
        scaled_sample(items, items2, c),
    ensures
        avg_mhz_of(items2, freqs) == avg_mhz_of(items, freqs),
        active_ratio(items, freqs).1 > 0,
        active_ratio(items2, freqs).1 > 0,
        same_value(active_ratio(items2, freqs), active_ratio(items, freqs)),
        scaled_ratio(items, freqs).1 > 0,
        scaled_ratio(items2, freqs).1 > 0,
        same_value(scaled_ratio(items2, freqs), scaled_ratio(items, freqs)),
{
    lemma_first_active_same_names(items, items2, c, 0);
    let off = active_offset(items);
    assert(active_offset(items2) == off);
    lemma_offset_in_range(items);
    let k = window_len(items, freqs.len() as int);
    assert(window_len(items2, freqs.len() as int) == k);
    let v = residency_values(items);
    let v2 = residency_values(items2);
    assert forall|i: int| 0 <= i < v.len() implies #[trigger] v2[i] == c * v[i] by {
        assert(items2[i].1 == c * items[i].1);
    }
    lemma_sum_scaled(v, v2, c);
    lemma_sum_scaled(v.subrange(off, off + k), v2.subrange(off, off + k), c);
    let t1 = Seq::new(k as nat, |i: int| weighted_term(items, freqs, i));
    let t2 = Seq::new(k as nat, |i: int| weighted_term(items2, freqs, i));
    assert forall|i: int| 0 <= i < k implies #[trigger] t2[i] == c * t1[i] by {
        let r = items[off + i].1 as int;
        let f = freqs[i] as int;
        assert(items2[off + i].1 == c * r);
        assert((c * r) * f == c * (r * f)) by (nonlinear_arith);
    }
    lemma_sum_scaled(t1, t2, c);
    let w = weighted_of(items, freqs);
    let u = usage_of(items, freqs);
    let t = total_of(items);
    assert(weighted_of(items2, freqs) == c * w);
    assert(usage_of(items2, freqs) == c * u);
    assert(total_of(items2) == c * t);
    lemma_zero_div_scale(w, u, c);
    lemma_ratio_scale(u, t, c);
    let m = min_freq_of(freqs);
    let mx = max_freq_of(freqs);
    assert(u == 0 <==> c * u == 0) by (nonlinear_arith)
        requires
            c > 0,
    ;
    assert(avg_at_least(c * w, c * u, m) == avg_at_least(w, u, m)) by (nonlinear_arith)
        requires
            c > 0,
    ;
    assert((c * t) * mx == c * (t * mx)) by (nonlinear_arith);
    assert(m * (c * u) == c * (m * u)) by (nonlinear_arith);
    lemma_ratio_scale(w, t * mx, c);
    lemma_ratio_scale(m * u, t * mx, c);
}

/// The active share depends on the frequency table only through its length.
pub proof fn lemma_active_share_ignores_frequency_values(
    items: Seq<(String, i64)>,
    freqs: Seq<u32>,
    freqs2: Seq<u32>,
)
    requires
        freqs2.len() == freqs.len(),
    ensures
        active_ratio(items, freqs2) == active_ratio(items, freqs),
{
}

/// The spec sums agree with the same sums written out term by term: the usage is the
/// sum of the `k` residencies from the active offset on, the weighted sum pairs each of
/// them with the frequency of the same rank, and the total sums every residency.
proof fn lemma_sums_written_out(items: Seq<(String, i64)>, freqs: Seq<u32>)
    ensures
        ({
            let off = active_offset(items);
            let k = if freqs.len() < items.len() - off {
                freqs.len() as int
            } else {
                items.len() - off
            };
            &&& 0 <= off <= items.len()
            &&& k >= 0
            &&& k == window_len(items, freqs.len() as int)
            &&& usage_of(items, freqs) == sum(Seq::new(k as nat, |i: int| items[off + i].1 as int))
            &&& weighted_of(items, freqs) == sum(
                Seq::new(k as nat, |i: int| items[off + i].1 * freqs[i]),
            )
            &&& total_of(items) == sum(Seq::new(items.len(), |i: int| items[i].1 as int))
        }),
{
    lemma_offset_in_range(items);
    let off = active_offset(items);
    let k = window_len(items, freqs.len() as int);
    assert(residency_values(items).subrange(off, off + k) =~= Seq::new(
        k as nat,
        |i: int| items[off + i].1 as int,
    ));
    assert(Seq::new(k as nat, |i: int| weighted_term(items, freqs, i)) =~= Seq::new(
        k as nat,
        |i: int| items[off + i].1 * freqs[i],
    ));
    assert(residency_values(items) =~= Seq::new(items.len(), |i: int| items[i].1 as int));
}

/// The index at which the active states start is the first state named none of `IDLE`,
/// `DOWN` and `OFF`, or 0 when every state has one of these names.
pub proof fn lemma_offset_is_first_active_state(items: Seq<(String, i64)>)
    ensures
        ({
            let off = active_offset(items);
            &&& (exists|j: int|
                0 <= j < items.len() && !(#[trigger] items[j].0@ == "IDLE"@ || items[j].0@
                    == "DOWN"@ || items[j].0@ == "OFF"@)) ==> {
                &&& 0 <= off < items.len()
                &&& !(items[off].0@ == "IDLE"@ || items[off].0@ == "DOWN"@ || items[off].0@
                    == "OFF"@)
                &&& forall|j: int|
                    0 <= j < off ==> (#[trigger] items[j].0@ == "IDLE"@ || items[j].0@ == "DOWN"@
                        || items[j].0@ == "OFF"@)
            }
            &&& (forall|j: int|
                0 <= j < items.len() ==> (#[trigger] items[j].0@ == "IDLE"@ || items[j].0@
                    == "DOWN"@ || items[j].0@ == "OFF"@)) ==> off == 0
        }),
{
    lemma_first_active_characterised(items, 0);
}

proof fn lemma_first_active_characterised(items: Seq<(String, i64)>, i: int)
    requires
        0 <= i <= items.len(),
    ensures
        (exists|j: int| i <= j < items.len() && !is_idle_state(#[trigger] items[j].0@)) ==> {
            &&& i <= first_active_from(items, i) < items.len()
            &&& !is_idle_state(items[first_active_from(items, i)].0@)
            &&& forall|j: int|
                i <= j < first_active_from(items, i) ==> is_idle_state(#[trigger] items[j].0@)
        },
        (forall|j: int| i <= j < items.len() ==> is_idle_state(#[trigger] items[j].0@))
            ==> first_active_from(items, i) == 0,
    decreases items.len() - i,
{
    if i < items.len() {
        lemma_first_active_characterised(items, i + 1);
        if is_idle_state(items[i].0@) {
            if exists|j: int| i <= j < items.len() && !is_idle_state(#[trigger] items[j].0@) {
                let j = choose|j: int| i <= j < items.len() && !is_idle_state(#[trigger] items[j].0@);
                assert(j != i);
                assert(i + 1 <= j < items.len() && !is_idle_state(items[j].0@));
            }
        }
    }
}

/// The average frequency is the residency-weighted mean of the frequencies, rounded
/// down: with `U` the summed residency of the `k` active states that have a frequency
/// and `W` the sum of each such residency times its frequency, `avg * U <= W < (avg + 1)
/// * U` while the mean fits in a `u32`; it saturates at `u32::MAX` above, is 0 below zero,
/// and is 0 when there is no usage.
pub proof fn lemma_average_is_truncated_mean(items: Seq<(String, i64)>, freqs: Seq<u32>)
    ensures
        ({
            let off = active_offset(items);
            let k = if freqs.len() < items.len() - off {
                freqs.len() as int
            } else {
                items.len() - off
            };
            let u = sum(Seq::new(k as nat, |i: int| items[off + i].1 as int));
            let w = sum(Seq::new(k as nat, |i: int| items[off + i].1 * freqs[i]));
            let a = avg_mhz_of(items, freqs);
            &&& u > 0 && w >= 0 && w / u <= u32::MAX ==> a * u <= w < (a + 1) * u
            &&& u > 0 && w >= 0 && w / u > u32::MAX ==> a == u32::MAX
            &&& u > 0 && w < 0 ==> a == 0
            &&& u == 0 ==> a == 0
        }),
{
    lemma_sums_written_out(items, freqs);
    let u = usage_of(items, freqs);
    let w = weighted_of(items, freqs);
    if u > 0 && w >= 0 {
        vstd::arithmetic::div_mod::lemma_fundamental_div_mod(w, u);
        vstd::arithmetic::div_mod::lemma_mod_pos_bound(w, u);
        let q = w / u;
        assert(q >= 0) by (nonlinear_arith)
            requires
                w >= 0,
                u > 0,
                q == w / u,
        ;
        assert(q * u <= w < (q + 1) * u) by (nonlinear_arith)
            requires
                w == u * q + w % u,
                0 <= w % u < u,
        ;
    }
    if u > 0 && w < 0 {
        assert(abs(w) / abs(u) >= 0) by (nonlinear_arith)
            requires
                abs(w) > 0,
                abs(u) > 0,
        ;
    }
}

/// For non-negative residencies and a table that never decreases, the scaled
/// utilisation is `W / (T * f_last)`: the summed residency-weighted frequency of the
/// active states over the total time times the top frequency. With no usage it is 0.
pub proof fn lemma_scaled_is_weighted_over_top(items: Seq<(String, i64)>, freqs: Seq<u32>)
    requires
        forall|i: int| 0 <= i < items.len() ==> #[trigger] items[i].1 >= 0,
        forall|i: int, j: int| 0 <= i <= j < freqs.len() ==> freqs[i] <= freqs[j],
    ensures
        ({
            let off = active_offset(items);
            let k = if freqs.len() < items.len() - off {
                freqs.len() as int
            } else {
                items.len() - off
            };
            let u = sum(Seq::new(k as nat, |i: int| items[off + i].1 as int));
            let w = sum(Seq::new(k as nat, |i: int| items[off + i].1 * freqs[i]));
            let t = sum(Seq::new(items.len(), |i: int| items[i].1 as int));
            let s = scaled_ratio(items, freqs);
            &&& s.1 > 0
            &&& u > 0 ==> freqs.len() > 0 && s.0 * (t * freqs[freqs.len() - 1]) == w * s.1
            &&& u == 0 ==> s.0 == 0 && w == 0
            &&& u >= 0
        }),
{
    lemma_sums_written_out(items, freqs);
    lemma_active_share_at_most_one(items, freqs);
    let w = weighted_of(items, freqs);
    let u = usage_of(items, freqs);
    let t = total_of(items);
    let k = window_len(items, freqs.len() as int);
    if u > 0 {
        assert(k > 0);
        assert(freqs.len() > 0);
        let m = freqs[0] as int;
        let mx = freqs[freqs.len() - 1] as int;
        assert forall|i: int| 0 <= i < freqs.len() implies m <= #[trigger] freqs[i] <= mx by {
            assert(freqs[0] <= freqs[i]);
            assert(freqs[i] <= freqs[freqs.len() - 1]);
        }
        lemma_weighted_prefix_bounds(items, freqs, k, m, mx);
        assert(m * u <= w <= mx * u);
        if mx == 0 {
            assert(w == 0) by (nonlinear_arith)
                requires
                    m * u <= w <= mx * u,
                    mx == 0,
                    0 <= m <= mx,
            ;
            let sr0 = scaled_ratio(items, freqs);
            assert(sr0 == (0int, 1int));
            assert(sr0.0 * (t * mx) == w * sr0.1) by (nonlinear_arith)
                requires
                    sr0.0 == 0,
                    w == 0,
            ;
        } else {
            assert(0 < t * mx) by (nonlinear_arith)
                requires
                    0 < u <= t,
                    0 < mx,
            ;
            assert(avg_at_least(w, u, m));
            assert(scaled_ratio(items, freqs) == (w, t * mx));
            let sr0 = scaled_ratio(items, freqs);
            assert(sr0.0 * (t * mx) == w * sr0.1) by (nonlinear_arith)
                requires
                    sr0.0 == w,
                    sr0.1 == t * mx,
            ;
        }
    }
    if u == 0 && freqs.len() > 0 {
        let m = freqs[0] as int;
        let mx = freqs[freqs.len() - 1] as int;
        assert forall|i: int| 0 <= i < freqs.len() implies m <= #[trigger] freqs[i] <= mx by {
            assert(freqs[0] <= freqs[i]);
            assert(freqs[i] <= freqs[freqs.len() - 1]);
        }
        lemma_weighted_prefix_bounds(items, freqs, k, m, mx);
        assert(w == 0) by (nonlinear_arith)
            requires
                m * u <= w <= mx * u,
                u == 0,
        ;
    }
    if freqs.len() == 0 {
        assert(k == 0);
        assert(Seq::new(0nat, |i: int| items[active_offset(items) + i].1 * freqs[i]) =~= Seq::<int>::empty());
    }
    let sr = scaled_ratio(items, freqs);
    assert(sr.1 > 0);
    assert(u == 0 ==> sr.0 == 0);
    assert(u >= 0);
    assert(u == 0 ==> w == 0);
    let off = active_offset(items);
    let kk = if freqs.len() < items.len() - off {
        freqs.len() as int
    } else {
        items.len() - off
    };
    assert(kk == k);
    assert(sum(Seq::new(kk as nat, |i: int| items[off + i].1 as int)) == u);
    assert(sum(Seq::new(kk as nat, |i: int| items[off + i].1 * freqs[i])) == w);
    assert(sum(Seq::new(items.len(), |i: int| items[i].1 as int)) == t);
    assert(u > 0 ==> freqs.len() > 0 && sr.0 * (t * freqs[freqs.len() - 1]) == w * sr.1);
}

/// The active share is `U / T`: the summed residency of the active states that have a
/// frequency over the summed residency of all states; 0 when the total is zero.
pub proof fn lemma_active_share_is_usage_over_total(items: Seq<(String, i64)>, freqs: Seq<u32>)
    ensures
        ({
            let off = active_offset(items);
            let k = if freqs.len() < items.len() - off {
                freqs.len() as int
            } else {
                items.len() - off
            };
            let u = sum(Seq::new(k as nat, |i: int| items[off + i].1 as int));
            let t = sum(Seq::new(items.len(), |i: int| items[i].1 as int));
            let a = active_ratio(items, freqs);
            &&& a.1 > 0
            &&& t != 0 ==> a.0 * t == u * a.1
            &&& t == 0 ==> a.0 == 0
        }),
{
    lemma_sums_written_out(items, freqs);
    let u = usage_of(items, freqs);
    let t = total_of(items);
    let a = active_ratio(items, freqs);
    if t > 0 {
        assert(a == (u, t));
        assert(a.0 * t == u * a.1) by (nonlinear_arith)
            requires
                a.0 == u,
                a.1 == t,
        ;
    } else if t < 0 {
        assert(a == (-u, -t));
        assert(a.0 * t == u * a.1) by (nonlinear_arith)
            requires
                a.0 == -u,
                a.1 == -t,
        ;
    }
}

} // verus!
