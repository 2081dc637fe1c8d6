//! Wall-clock skew detection between remote journals and the local host.

use vstd::prelude::*;
use vstd::relations::{sorted_by, total_ordering};

verus! {

broadcast use vstd::seq_lib::group_to_multiset_ensures;

/// How many live entries are sampled before the skew is judged.
pub const SAMPLE_TARGET: usize = 32;

/// The skew, in microseconds, beyond which clocks are said to disagree.
pub const THRESHOLD_US: i64 = 2_000_000;

/// The order in which samples are sorted.
pub open spec fn sample_le() -> spec_fn(i64, i64) -> bool {
    |a: i64, b: i64| a <= b
}

/// The median of `s`: the element at index `len / 2` once `s` is sorted.
pub open spec fn median(s: Seq<i64>) -> i64 {
    s.sort_by(sample_le())[s.len() as int / 2]
}

/// Whether a median skew is large enough to report.
pub open spec fn beyond_threshold(m: i64) -> bool {
    m > THRESHOLD_US || m < -THRESHOLD_US
}

/// Whether a tracker with these samples, reported or not, still takes
/// samples.
pub open spec fn wants_sample(samples: Seq<i64>, warned: bool) -> bool {
    !warned && samples.len() < SAMPLE_TARGET
}

/// Whether the sample `d` can be recorded after `samples`: it fits an
/// `i64`, and if it completes the set, their median is not `i64::MIN`
/// (whose magnitude does not fit).
pub open spec fn sample_fits(samples: Seq<i64>, d: int) -> bool {
    &&& i64::MIN <= d <= i64::MAX
    &&& samples.len() + 1 == SAMPLE_TARGET ==> median(samples.push(d as i64)) != i64::MIN
}

/// One observation of the sample `d` by a tracker holding `samples` and
/// having reported (`warned`) or not: the samples and report flag after it,
/// and the skew reported. Nothing changes once a skew was reported or
/// enough samples were judged; the set that reaches the target is judged
/// by its median.
pub open spec fn skew_step(samples: Seq<i64>, warned: bool, d: int) -> (Seq<i64>, bool, Option<
    i64,
>) {
    if !wants_sample(samples, warned) {
        (samples, warned, None)
    } else {
        let s = samples.push(d as i64);
        if s.len() < SAMPLE_TARGET {
            (s, false, None)
        } else if beyond_threshold(median(s)) {
            (s, true, Some(median(s)))
        } else {
            (s, false, None)
        }
    }
}

/// Estimates the offset between a remote journal's timestamps and the local
/// clock from the first live entries of a stream.
///
/// Each sample is local arrival time minus entry timestamp. Transport and
/// scheduling delay only push the median up by fractions of a second, so a
/// median beyond a couple of seconds in either direction means the clocks
/// disagree and cross-host ordering cannot be trusted.
pub struct SkewTracker {
    samples: Vec<i64>,
    warned: bool,
}

impl SkewTracker {
    /// The samples gathered so far, in arrival order.
    pub closed spec fn samples(&self) -> Seq<i64> {
        self.samples@
    }

    /// Whether a skew has been reported.
    pub closed spec fn warned(&self) -> bool {
        self.warned
    }

    #[verifier::type_invariant]
    closed spec fn well_formed(&self) -> bool {
        self.samples@.len() <= SAMPLE_TARGET
    }

    pub fn new() -> (t: Self)
        ensures
            t.samples() == Seq::<i64>::empty(),
            !t.warned(),
    {
        SkewTracker { samples: Vec::with_capacity(SAMPLE_TARGET), warned: false }
    }

    /// Whether the tracker still takes samples: no skew has been reported
    /// and fewer than the target number have been gathered.
    pub fn wants_samples(&self) -> (b: bool)
        ensures
            b == wants_sample(self.samples(), self.warned()),
    {
        !self.warned && self.samples.len() < SAMPLE_TARGET
    }

    /// Whether the sample `sample` may be observed: when the tracker still
    /// takes samples, it is not the last one of a set whose median is
    /// `i64::MIN`.
    pub fn accepts(&self, sample: i64) -> (b: bool)
        ensures
            b == (wants_sample(self.samples(), self.warned()) ==> sample_fits(
                self.samples(),
                sample as int,
            )),
    {
        proof {
            use_type_invariant(self);
        }
        if self.warned || self.samples.len() + 1 != SAMPLE_TARGET {
            return true;
        }
        let mut all: Vec<i64> = Vec::new();
        let mut i: usize = 0;
        while i < self.samples.len()
            invariant
                i <= self.samples@.len(),
                all@ == self.samples@.take(i as int),
            decreases self.samples@.len() - i,
        {
            all.push(self.samples[i]);
            assert(self.samples@.take(i + 1) =~= self.samples@.take(i as int).push(
                self.samples@[i as int],
            ));
            i = i + 1;
        }
        assert(self.samples@.take(self.samples@.len() as int) =~= self.samples@);
        all.push(sample);
        let sorted = sorted_copy(&all);
        sorted[sorted.len() / 2] != i64::MIN
    }

    /// Feeds one live entry; returns the estimated skew in microseconds the
    /// first time enough samples exist and their median crosses the
    /// reporting threshold.
    pub fn observe(&mut self, entry_ts_us: i64, arrival_us: i64) -> (res: Option<i64>)
        requires
            wants_sample(old(self).samples(), old(self).warned()) ==> sample_fits(
                old(self).samples(),
                arrival_us - entry_ts_us,
            ),
        ensures
            (final(self).samples(), final(self).warned(), res) == skew_step(
                old(self).samples(),
                old(self).warned(),
                arrival_us - entry_ts_us,
            ),
    {
        proof {
            use_type_invariant(&*self);
        }
        if self.warned || self.samples.len() >= SAMPLE_TARGET {
            return None;
        }
        let mut samples: Vec<i64> = Vec::new();
        std::mem::swap(&mut samples, &mut self.samples);
        samples.push(arrival_us - entry_ts_us);
        if samples.len() < SAMPLE_TARGET {
            *self = SkewTracker { samples, warned: false };
            return None;
        }
        let sorted = sorted_copy(&samples);
        let median: i64 = sorted[sorted.len() / 2];
        if median > THRESHOLD_US || median < -THRESHOLD_US {
            *self = SkewTracker { samples, warned: true };
            Some(median)
        } else {
            *self = SkewTracker { samples, warned: false };
            None
        }
    }
}

impl Default for SkewTracker {
    fn default() -> (t: Self)
        ensures
            t.samples() == Seq::<i64>::empty(),
            !t.warned(),
    {
        Self::new()
    }
}

proof fn lemma_sample_le_total()
    ensures
        total_ordering(sample_le()),
{
}

/// `v` with `x` put after every element no greater than it.
fn insert_sorted(v: &mut Vec<i64>, x: i64)
    requires
        sorted_by(old(v)@, sample_le()),
    ensures
        sorted_by(final(v)@, sample_le()),
        final(v)@.to_multiset() == old(v)@.to_multiset().insert(x),
{
    let mut i: usize = 0;
    while i < v.len() && v[i] <= x
        invariant
            i <= v.len(),
            forall|k: int| 0 <= k < i ==> v@[k] <= x,
        decreases v.len() - i,
    {
        i = i + 1;
    }
    let ghost before = v@;
    v.insert(i, x);
    proof {
        assert(v@.remove(i as int) =~= before);
        assert(v@[i as int] == x);
        assert(v@.to_multiset().remove(x) =~= before.to_multiset());
        assert(v@.to_multiset().count(x) > 0);
        assert(v@.to_multiset() =~= before.to_multiset().insert(x));
        assert forall|a: int, b: int| 0 <= a < b < v@.len() implies #[trigger] sample_le()(
            v@[a],
            v@[b],
        ) by {
            if b < i {
                assert(v@[a] == before[a] && v@[b] == before[b]);
            } else if b == i {
                assert(v@[a] == before[a]);
            } else if a < i {
                assert(v@[a] == before[a] && v@[b] == before[b - 1]);
            } else if a == i {
                assert(v@[b] == before[b - 1]);
                if b - 1 > i {
                    assert(sample_le()(before[i as int], before[b - 1]));
                }
            } else {
                assert(v@[a] == before[a - 1] && v@[b] == before[b - 1]);
            }
        }
    }
}

/// A sorted copy of `s` (`clone` then `sort_unstable`).
fn sorted_copy(s: &Vec<i64>) -> (out: Vec<i64>)
    ensures
        out@ == s@.sort_by(sample_le()),
        out@.len() == s@.len(),
{
    let mut out: Vec<i64> = Vec::new();
    let mut k: usize = 0;
    assert(s@.take(0) =~= Seq::<i64>::empty());
    while k < s.len()
        invariant
            k <= s.len(),
            sorted_by(out@, sample_le()),
            out@.to_multiset() == s@.take(k as int).to_multiset(),
        decreases s.len() - k,
    {
        insert_sorted(&mut out, s[k]);
        assert(s@.take(k + 1) =~= s@.take(k as int).push(s@[k as int]));
        k = k + 1;
    }
    proof {
        assert(s@.take(s.len() as int) =~= s@);
        assert(out@.len() == out@.to_multiset().len());
        lemma_sample_le_total();
        s@.lemma_sort_by_ensures(sample_le());
        vstd::seq_lib::lemma_sorted_unique(out@, s@.sort_by(sample_le()), sample_le());
    }
    out
}

/// The median is one of the samples.
pub proof fn lemma_median_is_a_sample(s: Seq<i64>)
    requires
        s.len() > 0,
    ensures
        s.contains(median(s)),
{
    lemma_sample_le_total();
    s.lemma_sort_by_ensures(sample_le());
    let t = s.sort_by(sample_le());
    assert(t.len() == t.to_multiset().len());
    assert(s.len() == s.to_multiset().len());
    assert(t.contains(t[s.len() as int / 2]));
}

/// A skew is reported at most once, and a tracker that has reported or
/// judged a full set of samples stays as it is whatever it observes next.
pub proof fn lemma_verdict_is_final(samples: Seq<i64>, warned: bool, d: int, next: int)
    ensures
        skew_step(samples, warned, d).2 is Some ==> !wants_sample(
            skew_step(samples, warned, d).0,
            skew_step(samples, warned, d).1,
        ),
        !wants_sample(samples, warned) ==> skew_step(samples, warned, next) == (
            samples,
            warned,
            None::<i64>,
        ),
{
}

/// No skew is reported before the target number of samples is reached.
pub proof fn lemma_no_verdict_before_target(samples: Seq<i64>, warned: bool, d: int)
    requires
        samples.len() + 1 < SAMPLE_TARGET,
    ensures
        skew_step(samples, warned, d).2 is None,
{
}

/// The samples and report flag of a tracker that started empty and observed
/// the samples `ds`, in order.
pub open spec fn state_after(ds: Seq<int>) -> (Seq<i64>, bool)
    decreases ds.len(),
{
    if ds.len() == 0 {
        (Seq::empty(), false)
    } else {
        let st = state_after(ds.drop_last());
        let step = skew_step(st.0, st.1, ds.last());
        (step.0, step.1)
    }
}

/// What a tracker that started empty reports when it observes the last of
/// the samples `ds`, having observed the others before it.
pub open spec fn report_after(ds: Seq<int>) -> Option<i64> {
    if ds.len() == 0 {
        None
    } else {
        let st = state_after(ds.drop_last());
        skew_step(st.0, st.1, ds.last()).2
    }
}

/// The samples `ds` as `i64` values.
pub open spec fn as_samples(ds: Seq<int>) -> Seq<i64> {
    ds.map_values(|d: int| d as i64)
}

/// A new tracker reports nothing for its first `SAMPLE_TARGET - 1`
/// observations, only gathering them; the observation that completes the
/// set reports the median of all of them exactly when its magnitude is
/// beyond the threshold.
pub proof fn lemma_judged_once_at_target(ds: Seq<int>)
    requires
        ds.len() <= SAMPLE_TARGET,
    ensures
        ds.len() < SAMPLE_TARGET ==> state_after(ds) == (as_samples(ds), false),
        ds.len() < SAMPLE_TARGET ==> report_after(ds) is None,
        ds.len() == SAMPLE_TARGET ==> state_after(ds).0 == as_samples(ds),
        ds.len() == SAMPLE_TARGET ==> report_after(ds) == if beyond_threshold(
            median(as_samples(ds)),
        ) {
            Some(median(as_samples(ds)))
        } else {
            None
        },
    decreases ds.len(),
{
    if ds.len() > 0 {
        let prev = ds.drop_last();
        lemma_judged_once_at_target(prev);
        assert(as_samples(prev).push(ds.last() as i64) =~= as_samples(ds));
    }
}

} // verus!
