//! The decisions of the main loop: which entries feed clock-skew estimation,
//! which enter the ordering buffer, and what leaves it.
//!
//! The caller reads events and clocks and prints what comes back.

use vstd::prelude::*;

use crate::filter::{passes, Filters};
use crate::merge::{has_waited, inserted, ready_count, records_of, stamps_ascending, Held, Merger};
use crate::record::Record;
use crate::skew::{sample_fits, skew_step, wants_sample, SkewTracker};
use crate::strings::str_eq;

verus! {

/// The skew state of a host that has not been observed yet: no samples,
/// nothing reported.
pub open spec fn fresh_skew() -> (Seq<i64>, bool) {
    (Seq::empty(), false)
}

/// Whether a host called `h` is in `hosts`.
pub open spec fn has_host(hosts: Seq<String>, h: Seq<char>) -> bool {
    exists|i: int| 0 <= i < hosts.len() && (#[trigger] hosts[i])@ == h
}

/// The index of the host called `h`.
pub open spec fn host_index(hosts: Seq<String>, h: Seq<char>) -> int {
    choose|i: int| 0 <= i < hosts.len() && (#[trigger] hosts[i])@ == h
}

/// Whether no two hosts have the same name.
pub open spec fn distinct_hosts(hosts: Seq<String>) -> bool {
    forall|i: int, j: int| 0 <= i < j < hosts.len() ==> (#[trigger] hosts[i])@ != (#[trigger] hosts[j])@
}

/// The skew state (samples, whether reported) of each host in `hosts`,
/// whose trackers stand at the same positions in `trackers`.
pub open spec fn skew_map(hosts: Seq<String>, trackers: Seq<SkewTracker>) -> Map<
    Seq<char>,
    (Seq<i64>, bool),
> {
    Map::new(
        |h: Seq<char>| has_host(hosts, h),
        |h: Seq<char>| (trackers[host_index(hosts, h)].samples(), trackers[host_index(hosts, h)].warned()),
    )
}

proof fn lemma_host_index_unique(hosts: Seq<String>, h: Seq<char>, i: int)
    requires
        distinct_hosts(hosts),
        0 <= i < hosts.len(),
        hosts[i]@ == h,
    ensures
        has_host(hosts, h),
        host_index(hosts, h) == i,
{
    assert(has_host(hosts, h));
    let j = host_index(hosts, h);
    if j != i {
        if j < i {
            assert(hosts[j]@ != hosts[i]@);
        } else {
            assert(hosts[i]@ != hosts[j]@);
        }
    }
}

/// Merges the streams of all hosts: filters entries, estimates each host's
/// clock skew from its live entries, and buffers the entries shown for
/// ordering.
pub struct Tail {
    filters: Filters,
    merger: Merger,
    hosts: Vec<String>,
    trackers: Vec<SkewTracker>,
}

impl Tail {
    /// The filters entries must pass.
    pub closed spec fn filters(&self) -> Filters {
        self.filters
    }

    /// The ordering buffer.
    pub closed spec fn buffer(&self) -> Merger {
        self.merger
    }

    /// The skew state (samples, whether reported) of each host observed.
    pub closed spec fn skews(&self) -> Map<Seq<char>, (Seq<i64>, bool)> {
        skew_map(self.hosts@, self.trackers@)
    }

    /// The skew state of `host`: what it was observed to be, else fresh.
    pub open spec fn skew_of(&self, host: Seq<char>) -> (Seq<i64>, bool) {
        if self.skews().contains_key(host) {
            self.skews()[host]
        } else {
            fresh_skew()
        }
    }

    /// Each host has one tracker, and the buffer is consistent.
    pub closed spec fn wf(&self) -> bool {
        &&& self.merger.consistent()
        &&& self.hosts@.len() == self.trackers@.len()
        &&& distinct_hosts(self.hosts@)
    }

    pub fn new(filters: Filters, window_ns: u64) -> (t: Self)
        ensures
            t.wf(),
            t.filters() == filters,
            t.buffer().queue() == Seq::<Held>::empty(),
            t.buffer().window() == window_ns,
            t.buffer().pushed() == 0,
            t.skews() == Map::<Seq<char>, (Seq<i64>, bool)>::empty(),
            t.buffer().consistent(),
    {
        let t = Tail { filters, merger: Merger::new(window_ns), hosts: Vec::new(), trackers: Vec::new() };
        assert(t.skews() =~= Map::<Seq<char>, (Seq<i64>, bool)>::empty());
        t
    }

    /// How many entries have entered the buffer so far.
    pub fn push_count(&self) -> (n: u64)
        ensures
            n == self.buffer().pushed(),
    {
        self.merger.push_count()
    }

    /// The position of `host` among the hosts observed.
    fn find_host(&self, host: &str) -> (k: Option<usize>)
        ensures
            match k {
                Some(i) => i < self.hosts@.len() && self.hosts@[i as int]@ == host@,
                None => !has_host(self.hosts@, host@),
            },
    {
        let mut i: usize = 0;
        while i < self.hosts.len()
            invariant
                i <= self.hosts@.len(),
                forall|j: int| 0 <= j < i ==> (#[trigger] self.hosts@[j])@ != host@,
            decreases self.hosts@.len() - i,
        {
            if str_eq(self.hosts[i].as_str(), host) {
                return Some(i);
            }
            i = i + 1;
        }
        None
    }

    /// Whether the skew tracker of `host` still takes samples.
    pub fn wants_samples(&self, host: &str) -> (b: bool)
        requires
            self.wf(),
        ensures
            b == wants_sample(self.skew_of(host@).0, self.skew_of(host@).1),
    {
        match self.find_host(host) {
            Some(k) => {
                proof {
                    lemma_host_index_unique(self.hosts@, host@, k as int);
                }
                self.trackers[k].wants_samples()
            },
            None => true,
        }
    }

    /// Whether a live entry from `host` whose sample (arrival minus
    /// timestamp) is `sample` may be observed: when the host's tracker still
    /// takes samples, the sample is not the last one of a set whose median
    /// is `i64::MIN`.
    pub fn accepts_sample(&self, host: &str, sample: i64) -> (b: bool)
        requires
            self.wf(),
        ensures
            b == (wants_sample(self.skew_of(host@).0, self.skew_of(host@).1) ==> sample_fits(
                self.skew_of(host@).0,
                sample as int,
            )),
    {
        match self.find_host(host) {
            Some(k) => {
                proof {
                    lemma_host_index_unique(self.hosts@, host@, k as int);
                }
                self.trackers[k].accepts(sample)
            },
            None => true,
        }
    }

    /// Feeds the skew tracker of `host` with the sample of an entry stamped
    /// `entry_ts_us` that arrived at `arrival_us`.
    fn observe_skew(&mut self, host: &str, entry_ts_us: i64, arrival_us: i64) -> (res: Option<i64>)
        requires
            old(self).wf(),
            wants_sample(old(self).skew_of(host@).0, old(self).skew_of(host@).1) ==> sample_fits(
                old(self).skew_of(host@).0,
                arrival_us - entry_ts_us,
            ),
        ensures
            final(self).wf(),
            ({
                let st = old(self).skew_of(host@);
                let step = skew_step(st.0, st.1, arrival_us - entry_ts_us);
                &&& final(self).skews() == old(self).skews().insert(host@, (step.0, step.1))
                &&& res == step.2
            }),
            final(self).filters() == old(self).filters(),
            final(self).buffer() == old(self).buffer(),
    {
        let ghost old_skews = self.skews();
        let ghost st = self.skew_of(host@);
        let ghost old_hosts = self.hosts@;
        let ghost old_trackers = self.trackers@;
        let k: usize = match self.find_host(host) {
            Some(k) => {
                proof {
                    lemma_host_index_unique(self.hosts@, host@, k as int);
                }
                k
            },
            None => {
                let name = host.to_string();
                self.hosts.push(name);
                self.trackers.push(SkewTracker::new());
                proof {
                    assert(self.hosts@[old_hosts.len() as int]@ == host@);
                    assert forall|i: int, j: int|
                        0 <= i < j < self.hosts@.len() implies (#[trigger] self.hosts@[i])@ != (
                        #[trigger] self.hosts@[j])@ by {
                        if j == old_hosts.len() {
                            assert(self.hosts@[i] == old_hosts[i]);
                            assert(old_hosts[i]@ != host@);
                        } else {
                            assert(self.hosts@[i] == old_hosts[i] && self.hosts@[j] == old_hosts[j]);
                        }
                    }
                }
                self.hosts.len() - 1
            },
        };
        let ghost mid_hosts = self.hosts@;
        let mut t = self.trackers.remove(k);
        proof {
            assert(t.samples() == st.0 && t.warned() == st.1) by {
                if !has_host(old_hosts, host@) {
                } else {
                    lemma_host_index_unique(old_hosts, host@, k as int);
                }
            }
        }
        let res = t.observe(entry_ts_us, arrival_us);
        let ghost nt = t;
        self.trackers.insert(k, t);
        proof {
            let step = skew_step(st.0, st.1, arrival_us - entry_ts_us);
            assert(self.trackers@[k as int] == nt);
            assert forall|h: Seq<char>| #[trigger] self.skews().contains_key(h) <==> old_skews.insert(
                host@,
                (step.0, step.1),
            ).contains_key(h) by {
                if h != host@ {
                    if has_host(mid_hosts, h) {
                        let i = choose|i: int| 0 <= i < mid_hosts.len() && (#[trigger] mid_hosts[i])@ == h;
                        assert(i < old_hosts.len() && old_hosts[i] == mid_hosts[i]);
                    }
                    if has_host(old_hosts, h) {
                        let i = choose|i: int| 0 <= i < old_hosts.len() && (#[trigger] old_hosts[i])@ == h;
                        assert(mid_hosts[i] == old_hosts[i]);
                    }
                }
            }
            assert forall|h: Seq<char>| #[trigger] self.skews().contains_key(h) implies self.skews()[h]
                == old_skews.insert(host@, (step.0, step.1))[h] by {
                if h == host@ {
                    lemma_host_index_unique(mid_hosts, h, k as int);
                } else {
                    let i = choose|i: int| 0 <= i < mid_hosts.len() && (#[trigger] mid_hosts[i])@ == h;
                    lemma_host_index_unique(mid_hosts, h, i);
                    assert(i != k);
                    assert(i < old_hosts.len() && old_hosts[i] == mid_hosts[i]);
                    lemma_host_index_unique(old_hosts, h, i);
                    assert(self.trackers@[i] == old_trackers[i]);
                }
            }
            assert(self.skews() =~= old_skews.insert(host@, (step.0, step.1)));
        }
        res
    }

    /// Handles one entry from a host: a live entry feeds the host's skew
    /// estimate, returning the skew the first time it is judged too large;
    /// an entry that passes the filters enters the ordering buffer, having
    /// arrived at `now_ns` on the monotonic clock.
    pub fn on_entry(&mut self, record: Record, live: bool, arrival_us: i64, now_ns: u64) -> (skew:
        Option<i64>)
        requires
            old(self).wf(),
            old(self).buffer().pushed() < u64::MAX,
            live && wants_sample(
                old(self).skew_of(record.host@).0,
                old(self).skew_of(record.host@).1,
            ) ==> sample_fits(old(self).skew_of(record.host@).0, arrival_us - record.timestamp_us),
        ensures
            final(self).wf(),
            final(self).filters() == old(self).filters(),
            live ==> ({
                let st = old(self).skew_of(record.host@);
                let step = skew_step(st.0, st.1, arrival_us - record.timestamp_us);
                &&& final(self).skews() == old(self).skews().insert(record.host@, (step.0, step.1))
                &&& skew == step.2
            }),
            !live ==> final(self).skews() == old(self).skews() && skew is None,
            final(self).buffer().window() == old(self).buffer().window(),
            passes(
                old(self).filters().units(),
                old(self).filters().priority_limit(),
                old(self).filters().grep(),
                record@,
            ) ==> {
                &&& final(self).buffer().pushed() == old(self).buffer().pushed() + 1
                &&& final(self).buffer().queue() == inserted(
                    old(self).buffer().queue(),
                    Held { seq: final(self).buffer().pushed(), arrived_ns: now_ns, record },
                )
            },
            !passes(
                old(self).filters().units(),
                old(self).filters().priority_limit(),
                old(self).filters().grep(),
                record@,
            ) ==> final(self).buffer() == old(self).buffer(),
            final(self).buffer().consistent(),
    {
        let skew = if live {
            self.observe_skew(record.host.as_str(), record.timestamp_us, arrival_us)
        } else {
            None
        };
        if self.filters.matches(&record) {
            self.merger.push(record, now_ns);
        }
        skew
    }

    /// Releases, oldest timestamp first, every buffered entry whose window
    /// has elapsed at `now_ns`.
    pub fn on_tick(&mut self, now_ns: u64) -> (out: Vec<Record>)
        requires
            old(self).wf(),
        ensures
            final(self).wf(),
            final(self).filters() == old(self).filters(),
            final(self).skews() == old(self).skews(),
            ({
                let q = old(self).buffer().queue();
                let k = ready_count(q, now_ns, old(self).buffer().window()) as int;
                &&& out@ == records_of(q.take(k))
                &&& final(self).buffer().queue() == q.skip(k)
            }),
            final(self).buffer().window() == old(self).buffer().window(),
            final(self).buffer().pushed() == old(self).buffer().pushed(),
            forall|i: int|
                0 <= i < out@.len() ==> has_waited(
                    #[trigger] old(self).buffer().queue()[i],
                    now_ns,
                    old(self).buffer().window(),
                ),
            stamps_ascending(out@),
            final(self).buffer().consistent(),
    {
        self.merger.pop_ready(now_ns)
    }

    /// Releases everything buffered, oldest timestamp first.
    pub fn finish(&mut self) -> (out: Vec<Record>)
        requires
            old(self).wf(),
        ensures
            final(self).wf(),
            out@ == records_of(old(self).buffer().queue()),
            final(self).buffer().queue() == Seq::<Held>::empty(),
            stamps_ascending(out@),
            final(self).buffer().consistent(),
            final(self).buffer().released_records().to_multiset()
                == final(self).buffer().pushed_records().to_multiset(),
    {
        self.merger.drain()
    }
}

} // verus!
