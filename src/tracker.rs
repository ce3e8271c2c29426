use vstd::prelude::*;
use crate::limiter::{rate_bps, rate_spec, MICROS_PER_SEC};

verus! {

/// One frame accounted by a tracker: when it was seen, its sequence number
/// and its length in bytes.
#[derive(Clone, Copy, Debug, PartialEq, Eq, Structural)]
pub struct Record {
    pub time_us: u64,
    pub sequence: u64,
    pub len: u64,
}

/// Loss over a run of records: the count that the sequence span implies, how
/// many of them are missing, and that share in hundredths of a percent.
#[derive(Clone, Copy, Debug, PartialEq, Eq, Structural)]
pub struct Loss {
    pub expected: u128,
    pub dropped: u128,
    pub drop_hundredths: u128,
}

/// A window or summary report. Times are microseconds since the stream began.
#[derive(Clone, Copy, Debug, PartialEq, Eq)]
pub struct Report {
    pub start_us: u64,
    pub end_us: u64,
    pub frames: usize,
    pub bytes: u64,
    pub rate_bps: u128,
    pub loss: Option<Loss>,
}

/// Statistics of one stream: its records in arrival order, the running byte
/// total, and where the next window report starts.
#[derive(Debug)]
pub struct Tracker {
    pub begin_us: u64,
    pub total_bytes: u64,
    pub window_cursor: usize,
    pub last_window_us: u64,
    pub records: Vec<Record>,
}

pub open spec fn sum_lens(s: Seq<Record>) -> int
    decreases s.len(),
{
    if s.len() == 0 {
        0
    } else {
        sum_lens(s.drop_last()) + s.last().len
    }
}

pub open spec fn max_seq(s: Seq<Record>) -> int
    decreases s.len(),
{
    if s.len() <= 1 {
        s[0].sequence as int
    } else if max_seq(s.drop_last()) >= s.last().sequence {
        max_seq(s.drop_last())
    } else {
        s.last().sequence as int
    }
}

pub open spec fn min_seq(s: Seq<Record>) -> int
    decreases s.len(),
{
    if s.len() <= 1 {
        s[0].sequence as int
    } else if min_seq(s.drop_last()) <= s.last().sequence {
        min_seq(s.drop_last())
    } else {
        s.last().sequence as int
    }
}

/// Loss of a non-empty run of records: `max - min + 1` frames were expected.
pub open spec fn loss_spec(s: Seq<Record>) -> Loss {
    let expected = max_seq(s) - min_seq(s) + 1;
    let dropped = if expected > s.len() { expected - s.len() } else { 0 };
    Loss {
        expected: expected as u128,
        dropped: dropped as u128,
        drop_hundredths: (dropped * 10000 / expected) as u128,
    }
}

/// The records that the next window report covers.
pub open spec fn window_of(t: Tracker) -> Seq<Record> {
    t.records@.subrange(t.window_cursor as int, t.records@.len() as int)
}

/// What a window report at time `now` gives, for a tracker with these
/// records, start, last report time and cursor: nothing before a second has
/// passed since the last report; loss only where asked for and the window
/// holds a record.
pub open spec fn window_spec(
    records: Seq<Record>,
    begin_us: u64,
    last_window_us: u64,
    cursor: usize,
    now: u64,
    with_loss: bool,
) -> Option<Report> {
    let w = records.subrange(cursor as int, records.len() as int);
    if now - last_window_us < 1000000 {
        None
    } else {
        Some(Report {
            start_us: (last_window_us - begin_us) as u64,
            end_us: (now - begin_us) as u64,
            frames: w.len() as usize,
            bytes: sum_lens(w) as u64,
            rate_bps: rate_spec(sum_lens(w), now - last_window_us) as u128,
            loss: if with_loss && w.len() > 0 { Some(loss_spec(w)) } else { None },
        })
    }
}

/// `window_spec` of a tracker.
pub open spec fn window_report_spec(t: Tracker, now: u64, with_loss: bool) -> Option<Report> {
    window_spec(t.records@, t.begin_us, t.last_window_us, t.window_cursor, now, with_loss)
}

/// The send-side summary of a tracker: the whole run, from its start to the
/// last frame sent, without loss; an empty run spans nothing.
pub open spec fn tx_summary_spec(t: Tracker) -> Report {
    let s = t.records@;
    let elapsed = if s.len() == 0 { 0 } else { s.last().time_us - t.begin_us };
    Report {
        start_us: 0,
        end_us: elapsed as u64,
        frames: s.len() as usize,
        bytes: t.total_bytes,
        rate_bps: rate_spec(t.total_bytes as int, elapsed) as u128,
        loss: None,
    }
}

/// The receive-side summary of a tracker: the whole stream, from its start
/// to its last record, with its loss; nothing when no frame was recorded.
pub open spec fn rx_summary_spec(t: Tracker) -> Option<Report> {
    let s = t.records@;
    if s.len() == 0 {
        None
    } else {
        Some(Report {
            start_us: 0,
            end_us: (s.last().time_us - t.begin_us) as u64,
            frames: s.len() as usize,
            bytes: t.total_bytes,
            rate_bps: rate_spec(t.total_bytes as int, s.last().time_us - t.begin_us) as u128,
            loss: Some(loss_spec(s)),
        })
    }
}

pub proof fn lemma_sum_nonneg(s: Seq<Record>)
    ensures
        sum_lens(s) >= 0,
    decreases s.len(),
{
    if s.len() > 0 {
        lemma_sum_nonneg(s.drop_last());
    }
}

pub proof fn lemma_sum_split(s: Seq<Record>, k: int)
    requires
        0 <= k <= s.len(),
    ensures
        sum_lens(s) == sum_lens(s.subrange(0, k)) + sum_lens(s.subrange(k, s.len() as int)),
    decreases s.len(),
{
    if k == s.len() {
        assert(s.subrange(0, k) =~= s);
        assert(s.subrange(k, s.len() as int).len() == 0);
    } else {
        let d = s.drop_last();
        lemma_sum_split(d, k);
        assert(d.subrange(0, k) =~= s.subrange(0, k));
        assert(s.subrange(k, s.len() as int).drop_last() =~= d.subrange(k, d.len() as int));
    }
}

/// A suffix of the records never holds more bytes than all of them.
pub proof fn lemma_suffix_sum(s: Seq<Record>, k: int, j: int)
    requires
        0 <= k <= j <= s.len(),
    ensures
        0 <= sum_lens(s.subrange(k, j)) <= sum_lens(s),
{
    let t = s.subrange(k, s.len() as int);
    lemma_sum_split(s, k);
    lemma_sum_split(t, j - k);
    assert(t.subrange(0, j - k) =~= s.subrange(k, j));
    lemma_sum_nonneg(s.subrange(0, k));
    lemma_sum_nonneg(s.subrange(k, j));
    lemma_sum_nonneg(t.subrange(j - k, t.len() as int));
}

/// Sum of the lengths of `records[from..]`.
fn sum_from(records: &Vec<Record>, from: usize) -> (r: u64)
    requires
        from <= records@.len(),
        sum_lens(records@) <= u64::MAX,
    ensures
        r == sum_lens(records@.subrange(from as int, records@.len() as int)),
{
    let mut acc: u64 = 0;
    let mut i: usize = from;
    while i < records.len()
        invariant
            from <= i <= records@.len(),
            sum_lens(records@) <= u64::MAX,
            acc == sum_lens(records@.subrange(from as int, i as int)),
        decreases records@.len() - i,
    {
        proof {
            lemma_suffix_sum(records@, from as int, i + 1);
            assert(records@.subrange(from as int, i + 1).drop_last() =~= records@.subrange(from as int, i as int));
        }
        acc = acc + records[i].len;
        i = i + 1;
    }
    acc
}

/// Smallest and largest sequence number in the non-empty `records[from..]`.
fn seq_bounds(records: &Vec<Record>, from: usize) -> (r: (u64, u64))
    requires
        from < records@.len(),
    ensures
        r.0 == min_seq(records@.subrange(from as int, records@.len() as int)),
        r.1 == max_seq(records@.subrange(from as int, records@.len() as int)),
{
    let n = records.len();
    let mut lo: u64 = records[from].sequence;
    let mut hi: u64 = records[from].sequence;
    let mut i: usize = from + 1;
    while i < records.len()
        invariant
            from < i <= records@.len(),
            lo == min_seq(records@.subrange(from as int, i as int)),
            hi == max_seq(records@.subrange(from as int, i as int)),
        decreases records@.len() - i,
    {
        assert(records@.subrange(from as int, i + 1).drop_last() =~= records@.subrange(from as int, i as int));
        let s = records[i].sequence;
        if s < lo {
            lo = s;
        }
        if s > hi {
            hi = s;
        }
        i = i + 1;
    }
    (lo, hi)
}

proof fn lemma_bounds_order(s: Seq<Record>)
    requires
        s.len() > 0,
    ensures
        0 <= min_seq(s) <= max_seq(s) <= u64::MAX,
    decreases s.len(),
{
    if s.len() > 1 {
        lemma_bounds_order(s.drop_last());
    }
}

/// Computes `loss_spec` over `records[from..]`, which must not be empty.
fn loss_from(records: &Vec<Record>, from: usize) -> (r: Loss)
    requires
        from < records@.len(),
    ensures
        r == loss_spec(records@.subrange(from as int, records@.len() as int)),
{
    let (lo, hi) = seq_bounds(records, from);
    proof {
        lemma_bounds_order(records@.subrange(from as int, records@.len() as int));
    }
    let expected: u128 = (hi as u128) - (lo as u128) + 1;
    let count: u128 = (records.len() - from) as u128;
    let dropped: u128 = if expected > count { expected - count } else { 0 };
    assert(dropped * 10000 <= u64::MAX * 10000 + 10000) by (nonlinear_arith)
        requires dropped <= expected, expected <= u64::MAX + 1;
    Loss { expected, dropped, drop_hundredths: dropped * 10000 / expected }
}

impl Tracker {
    /// Invariant: the byte total is the sum of the record lengths, the cursor
    /// lies within the records, and the records are in arrival order, none
    /// before the stream's start.
    pub open spec fn wf(&self) -> bool {
        &&& self.total_bytes == sum_lens(self.records@)
        &&& self.begin_us <= self.last_window_us
        &&& self.window_cursor <= self.records@.len()
        &&& forall|i: int| 0 <= i < self.records@.len() ==> self.begin_us <= #[trigger] self.records@[i].time_us
        &&& forall|i: int, j: int|
            0 <= i <= j < self.records@.len() ==> #[trigger] self.records@[i].time_us <= #[trigger] self.records@[j].time_us
    }

    /// No record of the tracker is later than `now_us`.
    pub open spec fn seen_by(&self, now_us: u64) -> bool {
        self.records@.len() > 0 ==> self.records@.last().time_us <= now_us
    }

    /// A tracker for a stream first seen at `now_us`.
    pub fn new(now_us: u64) -> (r: Tracker)
        ensures
            r.wf(),
            r.begin_us == now_us,
            r.last_window_us == now_us,
            r.total_bytes == 0,
            r.window_cursor == 0,
            r.records@ == Seq::<Record>::empty(),
    {
        Tracker { begin_us: now_us, total_bytes: 0, window_cursor: 0, last_window_us: now_us, records: Vec::new() }
    }

    /// Accounts a frame seen at `now_us`. Returns whether it arrived out of
    /// order, that is after a frame with a larger sequence number; it is
    /// recorded either way.
    pub fn insert(&mut self, sequence: u64, len: u64, now_us: u64) -> (out_of_order: bool)
        requires
            old(self).wf(),
            old(self).total_bytes + len <= u64::MAX,
            old(self).begin_us <= now_us,
            old(self).seen_by(now_us),
        ensures
            final(self).wf(),
            final(self).records@ == old(self).records@.push(Record { time_us: now_us, sequence, len }),
            final(self).total_bytes == old(self).total_bytes + len,
            final(self).begin_us == old(self).begin_us,
            final(self).last_window_us == old(self).last_window_us,
            final(self).window_cursor == old(self).window_cursor,
            out_of_order == (old(self).records@.len() > 0 && old(self).records@.last().sequence > sequence),
    {
        let n = self.records.len();
        let out_of_order = n > 0 && self.records[n - 1].sequence > sequence;
        let rec = Record { time_us: now_us, sequence, len };
        self.total_bytes = self.total_bytes + len;
        self.records.push(rec);
        assert(self.records@.drop_last() =~= old(self).records@);
        out_of_order
    }

    fn report_window(&mut self, now_us: u64, with_loss: bool) -> (r: Option<Report>)
        requires
            old(self).wf(),
            old(self).last_window_us <= now_us,
        ensures
            final(self).wf(),
            r == window_report_spec(*old(self), now_us, with_loss),
            final(self).records@ == old(self).records@,
            final(self).total_bytes == old(self).total_bytes,
            final(self).begin_us == old(self).begin_us,
            r is None ==> final(self).last_window_us == old(self).last_window_us
                && final(self).window_cursor == old(self).window_cursor,
            r is Some ==> final(self).last_window_us == now_us
                && final(self).window_cursor == (if old(self).records@.len() > 0 { old(self).records@.len() - 1 } else { 0 }),
    {
        let since_last = now_us - self.last_window_us;
        if since_last < MICROS_PER_SEC {
            return None;
        }
        let n = self.records.len();
        let from = self.window_cursor;
        proof {
            lemma_suffix_sum(self.records@, from as int, n as int);
        }
        let bytes = sum_from(&self.records, from);
        let loss = if with_loss && from < n { Some(loss_from(&self.records, from)) } else { None };
        let report = Report {
            start_us: self.last_window_us - self.begin_us,
            end_us: now_us - self.begin_us,
            frames: n - from,
            bytes,
            rate_bps: rate_bps(bytes, since_last),
            loss,
        };
        self.last_window_us = now_us;
        self.window_cursor = if n > 0 { n - 1 } else { 0 };
        Some(report)
    }

    /// Receive-side window report: once a second has passed since the last
    /// one, reports the frames since then with their loss, and starts the
    /// next window at the last record.
    pub fn report_rx(&mut self, now_us: u64) -> (r: Option<Report>)
        requires
            old(self).wf(),
            old(self).last_window_us <= now_us,
        ensures
            final(self).wf(),
            r == window_report_spec(*old(self), now_us, true),
            final(self).records@ == old(self).records@,
            final(self).total_bytes == old(self).total_bytes,
            final(self).begin_us == old(self).begin_us,
            r is None ==> final(self).last_window_us == old(self).last_window_us
                && final(self).window_cursor == old(self).window_cursor,
            r is Some ==> final(self).last_window_us == now_us
                && final(self).window_cursor == (if old(self).records@.len() > 0 { old(self).records@.len() - 1 } else { 0 }),
    {
        self.report_window(now_us, true)
    }

    /// Send-side window report: as `report_rx`, without loss.
    pub fn report_tx(&mut self, now_us: u64) -> (r: Option<Report>)
        requires
            old(self).wf(),
            old(self).last_window_us <= now_us,
        ensures
            final(self).wf(),
            r == window_report_spec(*old(self), now_us, false),
            final(self).records@ == old(self).records@,
            final(self).total_bytes == old(self).total_bytes,
            final(self).begin_us == old(self).begin_us,
            r is None ==> final(self).last_window_us == old(self).last_window_us
                && final(self).window_cursor == old(self).window_cursor,
            r is Some ==> final(self).last_window_us == now_us
                && final(self).window_cursor == (if old(self).records@.len() > 0 { old(self).records@.len() - 1 } else { 0 }),
    {
        self.report_window(now_us, false)
    }

    /// Receive-side summary: the whole stream, from its start to its last
    /// record, with its loss; nothing when no frame was recorded.
    pub fn report_rx_summary(&self) -> (r: Option<Report>)
        requires
            self.wf(),
        ensures
            r == rx_summary_spec(*self),
    {
        let n = self.records.len();
        if n == 0 {
            return None;
        }
        let elapsed = self.records[n - 1].time_us - self.begin_us;
        let loss = loss_from(&self.records, 0);
        assert(self.records@.subrange(0, n as int) =~= self.records@);
        Some(Report {
            start_us: 0,
            end_us: elapsed,
            frames: n,
            bytes: self.total_bytes,
            rate_bps: rate_bps(self.total_bytes, elapsed),
            loss: Some(loss),
        })
    }

    /// Send-side summary: the whole run, from its start to the last frame
    /// sent.
    pub fn report_tx_summary(&self) -> (r: Report)
        requires
            self.wf(),
        ensures
            r == tx_summary_spec(*self),
            r.frames == self.records@.len(),
    {
        let n = self.records.len();
        let elapsed = if n == 0 { 0 } else { self.records[n - 1].time_us - self.begin_us };
        Report {
            start_us: 0,
            end_us: elapsed,
            frames: n,
            bytes: self.total_bytes,
            rate_bps: rate_bps(self.total_bytes, elapsed),
            loss: None,
        }
    }
}

proof fn lemma_sum_cons(r: Record, t: Seq<Record>)
    ensures
        sum_lens(seq![r] + t) == r.len + sum_lens(t),
{
    let s = seq![r] + t;
    lemma_sum_split(s, 1);
    assert(s.subrange(0, 1) =~= seq![r]);
    assert(s.subrange(1, s.len() as int) =~= t);
    assert(seq![r].drop_last() =~= Seq::<Record>::empty());
    assert(sum_lens(Seq::<Record>::empty()) == 0);
    assert(sum_lens(seq![r]) == r.len);
}

proof fn lemma_sum_remove(u: Seq<Record>, j: int)
    requires
        0 <= j < u.len(),
    ensures
        sum_lens(u) == sum_lens(u.remove(j)) + u[j].len,
{
    let v = u.remove(j);
    lemma_sum_split(u, j);
    lemma_sum_split(v, j);
    assert(v.subrange(0, j) =~= u.subrange(0, j));
    let tail = u.subrange(j + 1, u.len() as int);
    assert(v.subrange(j, v.len() as int) =~= tail);
    assert(u.subrange(j, u.len() as int) =~= seq![u[j]] + tail);
    lemma_sum_cons(u[j], tail);
}

/// The lengths of a run of records, in order.
pub open spec fn lens(s: Seq<Record>) -> Seq<u64> {
    s.map_values(|r: Record| r.len)
}

proof fn lemma_sum_reorder(s: Seq<Record>, u: Seq<Record>)
    requires
        lens(s).to_multiset() == lens(u).to_multiset(),
    ensures
        sum_lens(s) == sum_lens(u),
    decreases s.len(),
{
    broadcast use vstd::seq_lib::group_to_multiset_ensures;
    broadcast use vstd::multiset::group_multiset_axioms;
    if s.len() == 0 {
        assert(lens(u).to_multiset().len() == 0);
        assert(u.len() == 0);
    } else {
        let x = s.last();
        let d = s.drop_last();
        assert(lens(s) =~= lens(d).push(x.len));
        assert(lens(u).to_multiset().count(x.len) > 0);
        assert(lens(u).contains(x.len));
        let j = choose|j: int| 0 <= j < lens(u).len() && lens(u)[j] == x.len;
        let v = u.remove(j);
        assert(lens(v) =~= lens(u).remove(j));
        assert(lens(d).to_multiset() =~= lens(v).to_multiset());
        lemma_sum_reorder(d, v);
        lemma_sum_remove(u, j);
    }
}

/// The byte total of a tracker is the sum of the lengths of the frames
/// inserted into it, whatever the order, times and sequence numbers with
/// which they arrived: two trackers that were given the same lengths, in any
/// order, hold the same total.
pub proof fn lemma_total_is_sum(t: Tracker, u: Tracker)
    requires
        t.wf(),
        u.wf(),
        lens(t.records@).to_multiset() == lens(u.records@).to_multiset(),
    ensures
        t.total_bytes == sum_lens(t.records@),
        t.total_bytes == u.total_bytes,
{
    lemma_sum_reorder(t.records@, u.records@);
}

} // verus!
