//! Cross-host ordering buffer.
//!
//! Time is measured on a monotonic clock in nanoseconds: `now_ns` arguments
//! are readings of that clock and the window is a length of time on it.

use vstd::prelude::*;
use vstd::std_specs::iter::IteratorSpec;

use crate::record::Record;

verus! {

/// One buffered entry: the record, its arrival rank and when it arrived.
pub struct Held {
    pub seq: u64,
    pub arrived_ns: u64,
    pub record: Record,
}

/// Whether `a` leaves the buffer before `b`: older timestamp first, and
/// among equal timestamps the one that arrived first.
pub open spec fn released_before(a: Held, b: Held) -> bool {
    a.record.timestamp_us < b.record.timestamp_us || (a.record.timestamp_us == b.record.timestamp_us && a.seq < b.seq)
}

/// Whether the entries of `q` stand in release order.
pub open spec fn in_release_order(q: Seq<Held>) -> bool {
    forall|i: int, j: int| 0 <= i < j < q.len() ==> released_before(q[i], q[j])
}

/// Whether every entry of `q` arrived before rank `seq`.
pub open spec fn ranks_below(q: Seq<Held>, seq: u64) -> bool {
    forall|i: int| 0 <= i < q.len() ==> (#[trigger] q[i]).seq < seq
}

/// The number of leading entries of `q` stamped no later than `ts`: where a
/// newly arrived entry stamped `ts` goes.
pub open spec fn insert_pos(q: Seq<Held>, ts: i64) -> nat
    decreases q.len(),
{
    if q.len() == 0 || q[0].record.timestamp_us > ts {
        0
    } else {
        1 + insert_pos(q.drop_first(), ts)
    }
}

/// `q` with the newly arrived `h` put in its place.
pub open spec fn inserted(q: Seq<Held>, h: Held) -> Seq<Held> {
    q.insert(insert_pos(q, h.record.timestamp_us) as int, h)
}

/// How long `h` has been buffered at `now_ns` (zero if the clock reading
/// lies before its arrival).
pub open spec fn buffered_for(h: Held, now_ns: u64) -> nat {
    if now_ns >= h.arrived_ns {
        (now_ns - h.arrived_ns) as nat
    } else {
        0
    }
}

/// Whether `h` has been buffered for the whole window at `now_ns`.
pub open spec fn has_waited(h: Held, now_ns: u64, window_ns: u64) -> bool {
    buffered_for(h, now_ns) >= window_ns
}

/// The length of the longest prefix of `q` whose entries have all waited.
pub open spec fn ready_count(q: Seq<Held>, now_ns: u64, window_ns: u64) -> nat
    decreases q.len(),
{
    if q.len() > 0 && has_waited(q[0], now_ns, window_ns) {
        1 + ready_count(q.drop_first(), now_ns, window_ns)
    } else {
        0
    }
}

/// The records of the entries of `q`, in the same order.
pub open spec fn records_of(q: Seq<Held>) -> Seq<Record> {
    q.map_values(|h: Held| h.record)
}

/// Whether the records of `s` have non-decreasing timestamps.
pub open spec fn stamps_ascending(s: Seq<Record>) -> bool {
    forall|i: int, j: int| 0 <= i <= j < s.len() ==> s[i].timestamp_us <= s[j].timestamp_us
}

/// Whether each entry of `q` carries its rank in `history`: entry ranks
/// start at one, and the record pushed with rank `r` is `history[r - 1]`.
pub open spec fn ranked_in(q: Seq<Held>, history: Seq<Record>) -> bool {
    forall|i: int|
        0 <= i < q.len() ==> 1 <= (#[trigger] q[i]).seq <= history.len() && history[q[i].seq - 1]
            == q[i].record
}

/// Buffers entries briefly so that streams from different hosts interleave
/// in timestamp order.
///
/// An entry is released once it has been buffered for the window, and only
/// after every earlier-stamped entry already buffered. Ordering across
/// hosts is therefore best-effort: an entry delayed by more than the window
/// is printed late, in arrival order relative to what already left the
/// buffer.
pub struct Merger {
    held: Vec<Held>,
    window_ns: u64,
    seq: u64,
    history: Ghost<Seq<Record>>,
    released: Ghost<Seq<Record>>,
}

impl Merger {
    /// The buffered entries, in release order.
    pub closed spec fn queue(&self) -> Seq<Held> {
        self.held@
    }

    /// How long each entry is held, in nanoseconds.
    pub closed spec fn window(&self) -> u64 {
        self.window_ns
    }

    /// How many entries have been pushed so far; the rank of the last one.
    pub closed spec fn pushed(&self) -> u64 {
        self.seq
    }

    /// Every record pushed so far, in the order it was pushed.
    pub closed spec fn pushed_records(&self) -> Seq<Record> {
        self.history@
    }

    /// Every record released so far, in the order it was released.
    pub closed spec fn released_records(&self) -> Seq<Record> {
        self.released@
    }

    /// What every buffer keeps: its entries stand in release order, each
    /// carries the rank it was pushed with, and what was released followed
    /// by what is buffered is a rearrangement of what was pushed, so that
    /// nothing is lost or released twice.
    pub open spec fn consistent(&self) -> bool {
        &&& in_release_order(self.queue())
        &&& ranked_in(self.queue(), self.pushed_records())
        &&& self.pushed() == self.pushed_records().len()
        &&& (self.released_records() + records_of(self.queue())).to_multiset()
            == self.pushed_records().to_multiset()
    }

    #[verifier::type_invariant]
    closed spec fn well_formed(&self) -> bool {
        self.consistent()
    }

    pub fn new(window_ns: u64) -> (m: Self)
        ensures
            m.queue() == Seq::<Held>::empty(),
            m.window() == window_ns,
            m.pushed() == 0,
            m.pushed_records() == Seq::<Record>::empty(),
            m.released_records() == Seq::<Record>::empty(),
            m.consistent(),
    {
        let m = Merger {
            held: Vec::new(),
            window_ns,
            seq: 0,
            history: Ghost(Seq::empty()),
            released: Ghost(Seq::empty()),
        };
        assert(Seq::<Record>::empty() + records_of(Seq::<Held>::empty()) =~= Seq::<Record>::empty());
        m
    }

    /// How many entries have been pushed so far.
    pub fn push_count(&self) -> (n: u64)
        ensures
            n == self.pushed(),
    {
        self.seq
    }

    /// Buffers `record`, which arrived at `now_ns`.
    pub fn push(&mut self, record: Record, now_ns: u64)
        requires
            old(self).pushed() < u64::MAX,
        ensures
            final(self).pushed() == old(self).pushed() + 1,
            final(self).window() == old(self).window(),
            final(self).queue() == inserted(
                old(self).queue(),
                Held {
                    seq: final(self).pushed(),
                    arrived_ns: now_ns,
                    record,
                },
            ),
            final(self).pushed_records() == old(self).pushed_records().push(record),
            final(self).released_records() == old(self).released_records(),
            final(self).consistent(),
    {
        proof {
            use_type_invariant(&*self);
        }
        let mut cur = Merger::new(self.window_ns);
        std::mem::swap(&mut cur, self);
        proof {
            use_type_invariant(&cur);
        }
        let Merger { held: mut held, window_ns, seq: last, history: old_history, released } = cur;
        let ghost r = record;
        let seq: u64 = last + 1;
        let ts: i64 = record.timestamp_us;
        let ghost q = held@;
        let mut i: usize = 0;
        assert(q.skip(0) =~= q);
        while i < held.len() && held[i].record.timestamp_us <= ts
            invariant
                held@ == q,
                i <= q.len(),
                insert_pos(q, ts) == i + insert_pos(q.skip(i as int), ts),
            decreases q.len() - i,
        {
            assert(q.skip(i as int).drop_first() =~= q.skip(i + 1));
            i = i + 1;
        }
        let h = Held { seq, arrived_ns: now_ns, record };
        proof {
            lemma_inserted_in_release_order(q, h);
            lemma_insert_pos_bounds(q, ts);
        }
        held.insert(i, h);
        let ghost history = old_history@.push(r);
        let ghost released = released@;
        proof {
            broadcast use vstd::seq_lib::group_to_multiset_ensures;
            broadcast use vstd::seq_lib::lemma_multiset_commutative;

            let nq = held@;
            assert forall|k: int| 0 <= k < nq.len() implies 1 <= (#[trigger] nq[k]).seq
                <= history.len() && history[nq[k].seq - 1] == nq[k].record by {
                if k < i {
                    assert(nq[k] == q[k]);
                } else if k > i {
                    assert(nq[k] == q[k - 1]);
                }
            }
            assert(records_of(nq) =~= records_of(q).insert(i as int, r));
            assert((released + records_of(nq)).to_multiset() =~= released.to_multiset().add(
                records_of(q).to_multiset().insert(r),
            ));
            assert((released + records_of(q)).to_multiset() =~= released.to_multiset().add(
                records_of(q).to_multiset(),
            ));
        }
        proof {
            assert(in_release_order(held@));
            assert(ranked_in(held@, history));
            assert(seq == history.len());
            assert(history.to_multiset() =~= old_history@.to_multiset().insert(r));
            assert((released + records_of(held@)).to_multiset() == history.to_multiset());
        }
        *self = Merger { held, window_ns, seq, history: Ghost(history), released: Ghost(released) };
    }

    /// Releases, oldest timestamp first, every entry whose buffering window
    /// has elapsed.
    pub fn pop_ready(&mut self, now_ns: u64) -> (out: Vec<Record>)
        ensures
            ({
                let k = ready_count(old(self).queue(), now_ns, old(self).window()) as int;
                &&& out@ == records_of(old(self).queue().take(k))
                &&& final(self).queue() == old(self).queue().skip(k)
            }),
            final(self).window() == old(self).window(),
            final(self).pushed() == old(self).pushed(),
            final(self).pushed_records() == old(self).pushed_records(),
            final(self).released_records() == old(self).released_records() + out@,
            final(self).consistent(),
            forall|i: int|
                0 <= i < out@.len() ==> has_waited(
                    #[trigger] old(self).queue()[i],
                    now_ns,
                    old(self).window(),
                ),
            final(self).queue().len() > 0 ==> !has_waited(
                final(self).queue()[0],
                now_ns,
                final(self).window(),
            ),
            stamps_ascending(out@),
            forall|i: int, j: int|
                0 <= i < j < out@.len() && out@[i].timestamp_us == out@[j].timestamp_us
                    ==> old(self).queue()[i].seq < old(self).queue()[j].seq,
    {
        proof {
            use_type_invariant(&*self);
        }
        let mut cur = Merger::new(self.window_ns);
        std::mem::swap(&mut cur, self);
        proof {
            use_type_invariant(&cur);
        }
        let Merger { held: mut done, window_ns, seq, history, released } = cur;
        let ghost q = done@;
        let ghost history = history@;
        let ghost released = released@;
        let mut k: usize = 0;
        assert(q.skip(0) =~= q);
        while k < done.len() && waited_out(&done[k], now_ns, window_ns)
            invariant
                done@ == q,
                k <= q.len(),
                ready_count(q, now_ns, window_ns) == k + ready_count(
                    q.skip(k as int),
                    now_ns,
                    window_ns,
                ),
                forall|i: int| 0 <= i < k ==> has_waited(#[trigger] q[i], now_ns, window_ns),
            decreases q.len() - k,
        {
            assert(q.skip(k as int).drop_first() =~= q.skip(k + 1));
            k = k + 1;
        }
        let rest = done.split_off(k);
        let ghost out_records = records_of(q.take(k as int));
        proof {
            assert(in_release_order(rest@));
            assert(rest@ =~= q.skip(k as int));
            assert forall|j: int| 0 <= j < rest@.len() implies 1 <= (#[trigger] rest@[j]).seq
                <= history.len() && history[rest@[j].seq - 1] == rest@[j].record by {
                assert(rest@[j] == q[j + k]);
            }
            assert(records_of(q) =~= out_records + records_of(q.skip(k as int)));
            assert(released + out_records + records_of(rest@) =~= released + records_of(q));
        }
        *self = Merger {
            held: rest,
            window_ns,
            seq,
            history: Ghost(history),
            released: Ghost(released + out_records),
        };
        let out = records_in_order(done);
        proof {
            lemma_prefix_stamps_ascending(q, k as int);
            assert forall|i: int, j: int|
                0 <= i < j < out@.len() && out@[i].timestamp_us == out@[j].timestamp_us
                    implies q[i].seq < q[j].seq by {
                assert(out@[i] == q[i].record && out@[j] == q[j].record);
                assert(released_before(q[i], q[j]));
            }
        }
        out
    }

    /// Releases everything immediately, oldest timestamp first.
    pub fn drain(&mut self) -> (out: Vec<Record>)
        ensures
            out@ == records_of(old(self).queue()),
            final(self).queue() == Seq::<Held>::empty(),
            final(self).window() == old(self).window(),
            final(self).pushed() == old(self).pushed(),
            final(self).pushed_records() == old(self).pushed_records(),
            final(self).released_records() == old(self).released_records() + out@,
            final(self).consistent(),
            final(self).released_records().to_multiset() == final(self).pushed_records().to_multiset(),
            forall|t: u64| #[trigger] ready_count(final(self).queue(), t, final(self).window()) == 0,
            stamps_ascending(out@),
            forall|i: int, j: int|
                0 <= i < j < out@.len() && out@[i].timestamp_us == out@[j].timestamp_us
                    ==> old(self).queue()[i].seq < old(self).queue()[j].seq,
            forall|i: int|
                0 <= i < out@.len() ==> old(self).pushed_records()[old(self).queue()[i].seq - 1]
                    == #[trigger] out@[i],
    {
        proof {
            use_type_invariant(&*self);
        }
        let mut cur = Merger::new(self.window_ns);
        std::mem::swap(&mut cur, self);
        proof {
            use_type_invariant(&cur);
        }
        let Merger { held: done, window_ns, seq, history, released } = cur;
        let ghost q = done@;
        let ghost history = history@;
        let ghost released = released@;
        proof {
            assert(records_of(Seq::<Held>::empty()) =~= Seq::<Record>::empty());
            assert(released + records_of(q) + records_of(Seq::<Held>::empty()) =~= released
                + records_of(q));
        }
        *self = Merger {
            held: Vec::new(),
            window_ns,
            seq,
            history: Ghost(history),
            released: Ghost(released + records_of(q)),
        };
        let out = records_in_order(done);
        proof {
            lemma_prefix_stamps_ascending(q, q.len() as int);
            assert(q.take(q.len() as int) =~= q);
            assert forall|i: int, j: int|
                0 <= i < j < out@.len() && out@[i].timestamp_us == out@[j].timestamp_us
                    implies q[i].seq < q[j].seq by {
                assert(out@[i] == q[i].record && out@[j] == q[j].record);
                assert(released_before(q[i], q[j]));
            }
            assert forall|i: int| 0 <= i < out@.len() implies history[q[i].seq - 1]
                == #[trigger] out@[i] by {
                assert(out@[i] == q[i].record);
            }
        }
        out
    }
}

/// Whether `h` has been buffered for the whole window at `now_ns`.
fn waited_out(h: &Held, now_ns: u64, window_ns: u64) -> (b: bool)
    ensures
        b == has_waited(*h, now_ns, window_ns),
{
    let waited: u64 = if now_ns >= h.arrived_ns {
        now_ns - h.arrived_ns
    } else {
        0
    };
    waited >= window_ns
}

/// The records of `held`, in the same order.
fn records_in_order(held: Vec<Held>) -> (out: Vec<Record>)
    ensures
        out@ == records_of(held@),
{
    let ghost q = held@;
    let mut out: Vec<Record> = Vec::new();
    for h in it: held.into_iter()
        invariant
            it.seq() == q,
            out@ == records_of(q.take(it.index() as int)),
    {
        assert(q.take(it.index() + 1) =~= q.take(it.index() as int).push(h));
        assert(records_of(q.take(it.index() + 1)) =~= records_of(q.take(it.index() as int)).push(
            h.record,
        ));
        out.push(h.record);
    }
    assert(q.take(q.len() as int) =~= q);
    out
}

proof fn lemma_prefix_stamps_ascending(q: Seq<Held>, k: int)
    requires
        in_release_order(q),
        0 <= k <= q.len(),
    ensures
        stamps_ascending(records_of(q.take(k))),
{
    let s = records_of(q.take(k));
    assert forall|i: int, j: int| 0 <= i <= j < s.len() implies s[i].timestamp_us
        <= s[j].timestamp_us by {
        assert(s[i] == q[i].record && s[j] == q[j].record);
        if i < j {
            assert(released_before(q[i], q[j]));
        }
    }
}

/// Where `insert_pos` puts an entry stamped `ts`: after every entry stamped
/// no later, before the first entry stamped later.
pub proof fn lemma_insert_pos_bounds(q: Seq<Held>, ts: i64)
    ensures
        insert_pos(q, ts) <= q.len(),
        forall|k: int| 0 <= k < insert_pos(q, ts) ==> (#[trigger] q[k]).record.timestamp_us <= ts,
        insert_pos(q, ts) < q.len() ==> q[insert_pos(q, ts) as int].record.timestamp_us > ts,
    decreases q.len(),
{
    if q.len() > 0 && q[0].record.timestamp_us <= ts {
        lemma_insert_pos_bounds(q.drop_first(), ts);
        assert forall|k: int| 0 <= k < insert_pos(q, ts) implies (#[trigger] q[k]).record.timestamp_us
            <= ts by {
            if k > 0 {
                assert(q[k] == q.drop_first()[k - 1]);
            }
        }
    }
}

/// A buffer in release order stays in release order when an entry that
/// arrived after all the others is put in its place.
pub proof fn lemma_inserted_in_release_order(q: Seq<Held>, h: Held)
    requires
        in_release_order(q),
        ranks_below(q, h.seq),
    ensures
        in_release_order(inserted(q, h)),
{
    lemma_insert_pos_bounds(q, h.record.timestamp_us);
    let p = insert_pos(q, h.record.timestamp_us) as int;
    let r = inserted(q, h);
    assert forall|i: int, j: int| 0 <= i < j < r.len() implies released_before(r[i], r[j]) by {
        if j < p {
            assert(r[i] == q[i] && r[j] == q[j]);
        } else if j == p {
            assert(r[i] == q[i]);
        } else if i < p {
            assert(r[i] == q[i] && r[j] == q[j - 1]);
            if j - 1 > p {
                assert(released_before(q[p], q[j - 1]));
            }
        } else if i == p {
            assert(r[j] == q[j - 1]);
            if j - 1 > p {
                assert(released_before(q[p], q[j - 1]));
            }
        } else {
            assert(r[i] == q[i - 1] && r[j] == q[j - 1]);
        }
    }
}

/// `insert_pos` passes over every leading entry stamped no later than `ts`.
proof fn lemma_insert_pos_at_least(q: Seq<Held>, ts: i64, m: int)
    requires
        0 <= m <= q.len(),
        forall|k: int| 0 <= k < m ==> (#[trigger] q[k]).record.timestamp_us <= ts,
    ensures
        insert_pos(q, ts) >= m,
    decreases m,
{
    if m > 0 {
        assert(q[0].record.timestamp_us <= ts);
        assert forall|k: int| 0 <= k < m - 1 implies (#[trigger] q.drop_first()[k]).record.timestamp_us
            <= ts by {
            assert(q.drop_first()[k] == q[k + 1]);
        }
        lemma_insert_pos_at_least(q.drop_first(), ts, m - 1);
    }
}

/// Two entries with equal timestamps, pushed one after the other, leave the
/// buffer in the order they arrived: the first stands before the second.
pub proof fn lemma_equal_stamps_keep_arrival_order(q: Seq<Held>, a: Held, b: Held)
    requires
        in_release_order(q),
        ranks_below(q, a.seq),
        a.seq < b.seq,
        a.record.timestamp_us == b.record.timestamp_us,
    ensures
        ({
            let ts = a.record.timestamp_us;
            let p = insert_pos(q, ts) as int;
            let q1 = inserted(q, a);
            let p2 = insert_pos(q1, ts) as int;
            let r = inserted(q1, b);
            &&& p < p2 < r.len()
            &&& r[p] == a
            &&& r[p2] == b
        }),
{
    let ts = a.record.timestamp_us;
    lemma_insert_pos_bounds(q, ts);
    let p = insert_pos(q, ts) as int;
    let q1 = inserted(q, a);
    assert forall|k: int| 0 <= k < p + 1 implies (#[trigger] q1[k]).record.timestamp_us <= ts by {
        if k < p {
            assert(q1[k] == q[k]);
        }
    }
    lemma_insert_pos_at_least(q1, ts, p + 1);
    lemma_insert_pos_bounds(q1, ts);
}

/// Pushing adds exactly the new entry: nothing buffered is lost or
/// duplicated.
pub proof fn lemma_push_adds_one(q: Seq<Held>, h: Held)
    ensures
        inserted(q, h).to_multiset() == q.to_multiset().insert(h),
        inserted(q, h).len() == q.len() + 1,
{
    broadcast use vstd::seq_lib::group_to_multiset_ensures;

    lemma_insert_pos_bounds(q, h.record.timestamp_us);
    let p = insert_pos(q, h.record.timestamp_us) as int;
    let r = inserted(q, h);
    assert(r.remove(p) =~= q);
    assert(r[p] == h);
    assert(r.to_multiset().remove(h) =~= q.to_multiset());
    assert(r.to_multiset().count(h) > 0);
    assert(r.to_multiset() =~= q.to_multiset().insert(h));
}

/// What a release hands out, followed by what stays buffered, is exactly
/// what was buffered: every entry leaves once, in release order.
pub proof fn lemma_release_keeps_everything(q: Seq<Held>, now_ns: u64, window_ns: u64)
    ensures
        ({
            let k = ready_count(q, now_ns, window_ns) as int;
            &&& k <= q.len()
            &&& records_of(q.take(k)) + records_of(q.skip(k)) == records_of(q)
        }),
    decreases q.len(),
{
    let k = ready_count(q, now_ns, window_ns) as int;
    if q.len() > 0 && has_waited(q[0], now_ns, window_ns) {
        lemma_release_keeps_everything(q.drop_first(), now_ns, window_ns);
    }
    assert(records_of(q.take(k)) + records_of(q.skip(k)) =~= records_of(q));
}

/// Entries that have all waited out the window leave together, so streams
/// that arrive within the window of each other interleave in timestamp
/// order.
pub proof fn lemma_all_waited_all_released(q: Seq<Held>, now_ns: u64, window_ns: u64)
    requires
        forall|i: int| 0 <= i < q.len() ==> has_waited(#[trigger] q[i], now_ns, window_ns),
    ensures
        ready_count(q, now_ns, window_ns) == q.len(),
    decreases q.len(),
{
    if q.len() > 0 {
        assert(has_waited(q[0], now_ns, window_ns));
        assert forall|i: int| 0 <= i < q.drop_first().len() implies has_waited(
            #[trigger] q.drop_first()[i],
            now_ns,
            window_ns,
        ) by {
            assert(q.drop_first()[i] == q[i + 1]);
        }
        lemma_all_waited_all_released(q.drop_first(), now_ns, window_ns);
    }
}

/// A buffer from which nothing was released holds exactly what was pushed,
/// stably sorted by timestamp: the same records, stamps ascending, and among
/// equal stamps the record pushed first comes first. Draining it hands out
/// these records in this order.
pub proof fn lemma_buffer_is_stable_sort(m: Merger)
    requires
        m.consistent(),
        m.released_records() == Seq::<Record>::empty(),
    ensures
        records_of(m.queue()).to_multiset() == m.pushed_records().to_multiset(),
        stamps_ascending(records_of(m.queue())),
        forall|i: int|
            0 <= i < m.queue().len() ==> m.pushed_records()[(#[trigger] m.queue()[i]).seq - 1]
                == records_of(m.queue())[i],
        forall|i: int, j: int|
            0 <= i < j < m.queue().len() && m.queue()[i].record.timestamp_us
                == m.queue()[j].record.timestamp_us ==> (#[trigger] m.queue()[i]).seq < (
            #[trigger] m.queue()[j]).seq,
{
    let q = m.queue();
    assert(Seq::<Record>::empty() + records_of(q) =~= records_of(q));
    lemma_prefix_stamps_ascending(q, q.len() as int);
    assert(q.take(q.len() as int) =~= q);
    assert forall|i: int, j: int|
        0 <= i < j < q.len() && q[i].record.timestamp_us == q[j].record.timestamp_us implies (
        #[trigger] q[i]).seq < (#[trigger] q[j]).seq by {
        assert(released_before(q[i], q[j]));
    }
}

/// Pushing onto a buffer from which nothing was released, then draining,
/// hands out everything pushed stably sorted by timestamp: the records
/// pushed before, followed by the new one, rearranged with stamps ascending
/// and equal stamps in push order. The new record comes after every entry
/// already buffered with a timestamp not above its own, and before every
/// entry with a later one, which keep their order.
///
/// `before` is the buffer before the call and `after` the buffer that
/// `Merger::push(record, now_ns)` leaves, as its contract describes it.
pub proof fn lemma_push_then_drain_sorts_stably(
    before: Merger,
    after: Merger,
    record: Record,
    now_ns: u64,
)
    requires
        before.consistent(),
        before.released_records() == Seq::<Record>::empty(),
        before.pushed() < u64::MAX,
        after.pushed() == before.pushed() + 1,
        after.window() == before.window(),
        after.queue() == inserted(
            before.queue(),
            Held { seq: after.pushed(), arrived_ns: now_ns, record },
        ),
        after.pushed_records() == before.pushed_records().push(record),
        after.released_records() == before.released_records(),
        after.consistent(),
    ensures
        records_of(after.queue()).to_multiset() == before.pushed_records().push(
            record,
        ).to_multiset(),
        stamps_ascending(records_of(after.queue())),
        forall|i: int|
            0 <= i < after.queue().len() ==> before.pushed_records().push(record)[(
            #[trigger] after.queue()[i]).seq - 1] == records_of(after.queue())[i],
        forall|i: int, j: int|
            0 <= i < j < after.queue().len() && after.queue()[i].record.timestamp_us
                == after.queue()[j].record.timestamp_us ==> (#[trigger] after.queue()[i]).seq < (
            #[trigger] after.queue()[j]).seq,
        ({
            let q = before.queue();
            let p = insert_pos(q, record.timestamp_us) as int;
            &&& 0 <= p <= q.len()
            &&& after.queue()[p].record == record
            &&& after.queue()[p].seq == after.pushed()
            &&& forall|k: int|
                0 <= k < q.len() && (#[trigger] q[k]).record.timestamp_us
                    <= record.timestamp_us ==> k < p && after.queue()[k] == q[k]
            &&& forall|k: int|
                0 <= k < q.len() && p <= k ==> (#[trigger] q[k]).record.timestamp_us
                    > record.timestamp_us && after.queue()[k + 1] == q[k]
        }),
{
    lemma_buffer_is_stable_sort(after);
    let q = before.queue();
    let ts = record.timestamp_us;
    lemma_insert_pos_bounds(q, ts);
    let p = insert_pos(q, ts) as int;
    assert forall|k: int|
        0 <= k < q.len() && (#[trigger] q[k]).record.timestamp_us <= ts implies k < p
        && after.queue()[k] == q[k] by {
        if k >= p {
            assert(p < q.len());
            if k > p {
                assert(released_before(q[p], q[k]));
            }
        }
    }
    assert forall|k: int| 0 <= k < q.len() && p <= k implies (#[trigger] q[k]).record.timestamp_us
        > ts && after.queue()[k + 1] == q[k] by {
        if k > p {
            assert(released_before(q[p], q[k]));
        }
    }
}

/// Whether `after` is what one call of `push`, `pop_ready` or `drain`
/// leaves of `before`, with `out` the records the call handed out (none,
/// for a push), as those calls' contracts state: a push adds one record to
/// what was pushed and releases nothing; a release adds what it hands out
/// to what was released and pushes nothing.
pub open spec fn merger_call(before: Merger, after: Merger, out: Seq<Record>) -> bool {
    &&& after.consistent()
    &&& {
        ||| (out.len() == 0 && after.pushed_records().len() == before.pushed_records().len() + 1
            && after.pushed_records().drop_last() == before.pushed_records()
            && after.released_records() == before.released_records())
        ||| (after.pushed_records() == before.pushed_records() && after.released_records()
            == before.released_records() + out)
    }
}

/// The records of `outs`, one call's output after another.
pub open spec fn concat_all(outs: Seq<Seq<Record>>) -> Seq<Record>
    decreases outs.len(),
{
    if outs.len() == 0 {
        Seq::empty()
    } else {
        concat_all(outs.drop_last()) + outs.last()
    }
}

/// Starting from a new buffer, whatever calls follow, everything the calls
/// handed out, in order, is what was released; with what is still buffered
/// it holds each record pushed exactly once. So once the buffer is empty
/// (after a `drain`), the outputs together are a rearrangement of what was
/// pushed: nothing lost, nothing released twice.
pub proof fn lemma_calls_hand_out_each_record_once(ms: Seq<Merger>, outs: Seq<Seq<Record>>)
    requires
        ms.len() == outs.len() + 1,
        ms[0].consistent(),
        ms[0].pushed_records() == Seq::<Record>::empty(),
        ms[0].released_records() == Seq::<Record>::empty(),
        forall|i: int| 0 <= i < outs.len() ==> merger_call(ms[i], #[trigger] ms[i + 1], outs[i]),
    ensures
        ms.last().released_records() == concat_all(outs),
        (concat_all(outs) + records_of(ms.last().queue())).to_multiset()
            == ms.last().pushed_records().to_multiset(),
        ms.last().queue().len() == 0 ==> concat_all(outs).to_multiset()
            == ms.last().pushed_records().to_multiset(),
    decreases outs.len(),
{
    if outs.len() > 0 {
        let n = outs.len() as int;
        let prev_ms = ms.take(n);
        let prev_outs = outs.drop_last();
        assert forall|i: int| 0 <= i < prev_outs.len() implies merger_call(
            prev_ms[i],
            #[trigger] prev_ms[i + 1],
            prev_outs[i],
        ) by {
            assert(merger_call(ms[i], ms[i + 1], outs[i]));
        }
        lemma_calls_hand_out_each_record_once(prev_ms, prev_outs);
        assert(merger_call(ms[n - 1], ms[n], outs[n - 1]));
        assert(prev_ms.last() == ms[n - 1]);
        assert(concat_all(prev_outs) + outs[n - 1] =~= concat_all(outs));
        assert(concat_all(outs) =~= concat_all(prev_outs) + outs.last());
        if outs[n - 1].len() == 0 {
            assert(concat_all(prev_outs) + outs[n - 1] =~= concat_all(prev_outs));
        }
    } else {
        assert(concat_all(outs) =~= Seq::<Record>::empty());
    }
    let last = ms.last();
    assert(last.consistent());
    if last.queue().len() == 0 {
        assert(records_of(last.queue()) =~= Seq::<Record>::empty());
        assert(concat_all(outs) + records_of(last.queue()) =~= concat_all(outs));
    }
}

} // verus!
