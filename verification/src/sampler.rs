//! The decisions of the GPU utilisation sampler.
//!
//! Each sample is a delta between two IOReport snapshots, so the first call only takes
//! the baseline snapshot and reports nothing. Later calls read the `GPUPH` residencies
//! of the delta and turn them into a utilisation in `[0, 1]` (a percentage once scaled
//! by 100), using the frequency table without its first entry.

use vstd::prelude::*;
use crate::error::CollectionError;
use crate::residency::{
    active_offset, calc_freq_from_residencies, lemma_scaled_is_weighted_over_top, scaled_ratio, sum,
    Fraction, MAX_STATES,
};

verus! {

/// Clamps a fraction with a positive denominator into `[0, 1]`.
pub open spec fn clamp_unit(r: (int, int)) -> (int, int) {
    if r.0 <= 0 {
        (0, 1)
    } else if r.0 >= r.1 {
        (1, 1)
    } else {
        r
    }
}

/// The frequencies that line up with the active performance states: the table without
/// its first entry, or the whole table when it has at most one.
pub open spec fn usage_freqs(freqs: Seq<u32>) -> Seq<u32> {
    if freqs.len() > 1 {
        freqs.skip(1)
    } else {
        freqs
    }
}

/// Utilisation (in `[0, 1]`) that a `GPUPH` residency sample shows, or none when the
/// sample has no more states than the frequency table.
pub open spec fn usage_of_sample(freqs: Seq<u32>, residencies: Seq<(String, i64)>) -> Option<
    (int, int),
> {
    if residencies.len() > usage_freqs(freqs).len() {
        Some(clamp_unit(scaled_ratio(residencies, usage_freqs(freqs))))
    } else {
        None
    }
}

/// The verified state of a GPU sampler: the frequency table (MHz) and whether a baseline
/// snapshot has been taken.
#[derive(Debug)]
pub struct GpuUsageModel {
    gpu_freqs: Vec<u32>,
    has_baseline: bool,
}

impl GpuUsageModel {
    /// The frequency table.
    pub closed spec fn freqs(self) -> Seq<u32> {
        self.gpu_freqs@
    }

    /// Whether a baseline snapshot has been taken.
    pub closed spec fn primed(self) -> bool {
        self.has_baseline
    }

    /// The table holds at least two frequencies; every sampler keeps this.
    #[verifier::type_invariant]
    pub closed spec fn wf(self) -> bool {
        self.gpu_freqs@.len() >= 2
    }

    /// The state after one more sample: the table is kept and a baseline exists.
    pub closed spec fn after_sample(self) -> Self {
        GpuUsageModel { gpu_freqs: self.gpu_freqs, has_baseline: true }
    }

    /// A sampler over `gpu_freqs`; fails when the table has fewer than two entries.
    pub fn new(gpu_freqs: Vec<u32>) -> (r: Result<Self, CollectionError>)
        ensures
            gpu_freqs@.len() < 2 ==> r == Err::<Self, CollectionError>(
                CollectionError::FrequencyTableTooShort,
            ),
            gpu_freqs@.len() >= 2 ==> (r matches Ok(m) && m.wf() && m.freqs() == gpu_freqs@
                && !m.primed()),
    {
        if gpu_freqs.len() < 2 {
            Err(CollectionError::FrequencyTableTooShort)
        } else {
            Ok(GpuUsageModel { gpu_freqs, has_baseline: false })
        }
    }

    /// Records that a snapshot was taken; returns whether there was a baseline to
    /// compare it with (so whether this call can report a utilisation).
    pub fn begin_sample(&mut self) -> (had_baseline: bool)
        ensures
            had_baseline == old(self).primed(),
            *final(self) == old(self).after_sample(),
            final(self).primed(),
            final(self).freqs() == old(self).freqs(),
    {
        proof {
            use_type_invariant(&*self);
        }
        let had = self.has_baseline;
        self.has_baseline = true;
        had
    }

    /// The frequencies that line up with the active performance states.
    pub fn usage_freqs(&self) -> (f: &[u32])
        ensures
            f@ == usage_freqs(self.freqs()),
            f@ == self.freqs().skip(1),
            f@.len() + 1 == self.freqs().len(),
            self.freqs().len() >= 2,
    {
        proof {
            use_type_invariant(self);
        }
        if self.gpu_freqs.len() > 1 {
            vstd::slice::slice_subrange(self.gpu_freqs.as_slice(), 1, self.gpu_freqs.len())
        } else {
            self.gpu_freqs.as_slice()
        }
    }

    /// The utilisation, in `[0, 1]`, that a `GPUPH` residency sample shows; none when
    /// the sample has no more states than the frequency table.
    pub fn usage_from_residencies(&self, residencies: &[(String, i64)]) -> (r: Option<Fraction>)
        requires
            residencies@.len() <= MAX_STATES,
        ensures
            r is None <==> usage_of_sample(self.freqs(), residencies@) is None,
            r matches Some(f) ==> f.is(usage_of_sample(self.freqs(), residencies@)->0),
            r matches Some(f) ==> 0 <= f.num <= f.den && f.den > 0,
            r is Some <==> residencies@.len() + 1 > self.freqs().len(),
            r matches Some(f) ==> {
                let s = scaled_ratio(residencies@, self.freqs().skip(1));
                &&& 0 <= s.0 <= s.1 ==> f.num * s.1 == s.0 * f.den
                &&& s.0 < 0 ==> f.num == 0
                &&& s.0 > s.1 ==> f.num == f.den
            },
    {
        proof {
            use_type_invariant(self);
            lemma_usage_keeps_unit_values(self.freqs(), residencies@);
        }
        let freqs = self.usage_freqs();
        assert(freqs@ == usage_freqs(self.freqs()));
        if residencies.len() > freqs.len() {
            let e = calc_freq_from_residencies(residencies, freqs);
            let s = e.scaled;
            if s.num <= 0 {
                Some(Fraction { num: 0, den: 1 })
            } else if s.num >= s.den {
                Some(Fraction { num: 1, den: 1 })
            } else {
                Some(s)
            }
        } else {
            None
        }
    }
}

/// The utilisation a sample shows is its scaled utilisation over the table without its
/// first entry, with the same value whenever that lies in `[0, 1]`; below 0 it reads 0
/// and above 1 it reads 1. There is one exactly when the sample has more states than
/// that shortened table.
pub proof fn lemma_usage_keeps_unit_values(freqs: Seq<u32>, residencies: Seq<(String, i64)>)
    requires
        freqs.len() >= 2,
    ensures
        usage_of_sample(freqs, residencies) is Some <==> residencies.len() + 1 > freqs.len(),
        usage_of_sample(freqs, residencies) matches Some(f) ==> {
            let s = scaled_ratio(residencies, freqs.skip(1));
            &&& 0 <= f.0 <= f.1
            &&& f.1 > 0
            &&& 0 <= s.0 <= s.1 ==> f.0 * s.1 == s.0 * f.1
            &&& s.0 < 0 ==> f.0 == 0
            &&& s.0 > s.1 ==> f.0 == f.1
        },
{
    let s = scaled_ratio(residencies, freqs.skip(1));
    assert(s.1 > 0);
    if 0 < s.0 < s.1 {
        assert(clamp_unit(s) == s);
    }
}

/// For non-negative residencies and a table that never decreases, the utilisation a
/// sample shows is `W / (T * f_last)` over the table without its first entry: `W` sums
/// each active residency times the frequency of the same rank, `T` sums all residencies
/// and `f_last` is the top frequency.
pub proof fn lemma_usage_is_weighted_over_top(freqs: Seq<u32>, residencies: Seq<(String, i64)>)
    requires
        freqs.len() >= 2,
        residencies.len() + 1 > freqs.len(),
        forall|i: int| 0 <= i < residencies.len() ==> #[trigger] residencies[i].1 >= 0,
        forall|i: int, j: int| 1 <= i <= j < freqs.len() ==> freqs[i] <= freqs[j],
    ensures
        ({
            let table = freqs.skip(1);
            let off = active_offset(residencies);
            let k = if table.len() < residencies.len() - off {
                table.len() as int
            } else {
                residencies.len() - off
            };
            let w = sum(Seq::new(k as nat, |i: int| residencies[off + i].1 * table[i]));
            let t = sum(Seq::new(residencies.len(), |i: int| residencies[i].1 as int));
            let top = freqs[freqs.len() - 1] as int;
            usage_of_sample(freqs, residencies) matches Some(f) && f.0 * (t * top) == w * f.1
        }),
{
    let table = freqs.skip(1);
    assert forall|i: int, j: int| 0 <= i <= j < table.len() implies table[i] <= table[j] by {
        assert(freqs[i + 1] <= freqs[j + 1]);
    }
    lemma_scaled_is_weighted_over_top(residencies, table);
    crate::residency::lemma_scaled_at_most_one(residencies, table);
    lemma_usage_keeps_unit_values(freqs, residencies);
    let s = scaled_ratio(residencies, table);
    let f = usage_of_sample(freqs, residencies)->0;
    let off = active_offset(residencies);
    let k = if table.len() < residencies.len() - off {
        table.len() as int
    } else {
        residencies.len() - off
    };
    let w = sum(Seq::new(k as nat, |i: int| residencies[off + i].1 * table[i]));
    let t = sum(Seq::new(residencies.len(), |i: int| residencies[i].1 as int));
    let top = freqs[freqs.len() - 1] as int;
    assert(table[table.len() - 1] == top);
    let u = sum(Seq::new(k as nat, |i: int| residencies[off + i].1 as int));
    if u > 0 {
        assert(s.0 * (t * top) == w * s.1);
        assert(f.0 * s.1 == s.0 * f.1);
        assert(f.0 * (t * top) == w * f.1) by (nonlinear_arith)
            requires
                s.0 * (t * top) == w * s.1,
                f.0 * s.1 == s.0 * f.1,
                s.1 > 0,
        ;
    } else {
        assert(s.0 == 0);
        assert(f.0 == 0);
    }
}

/// One sample keeps the frequency table (so the table keeps at least two entries) and
/// leaves a baseline behind.
pub proof fn lemma_sample_keeps_table(m: GpuUsageModel)
    ensures
        m.after_sample().freqs() == m.freqs(),
        m.after_sample().primed(),
        m.after_sample().wf() == m.wf(),
{
}

/// The state after `k` samples.
pub open spec fn after_samples(m: GpuUsageModel, k: nat) -> GpuUsageModel
    decreases k,
{
    if k == 0 {
        m
    } else {
        after_samples(m, (k - 1) as nat).after_sample()
    }
}

/// A sampler without a baseline (as `new` makes it) has none before its first
/// sample and has one before every later sample, so only the first call reports nothing;
/// sampling never changes the frequency table.
pub proof fn lemma_only_first_sample_lacks_baseline(m: GpuUsageModel, k: nat)
    requires
        !m.primed(),
    ensures
        after_samples(m, k).primed() == (k > 0),
        after_samples(m, k).freqs() == m.freqs(),
    decreases k,
{
    if k > 0 {
        lemma_only_first_sample_lacks_baseline(m, (k - 1) as nat);
    }
}

} // verus!
