use vstd::prelude::*;
use crate::codec::{build_payload, header_bytes, SequenceHeader, HEADER_SIZE};
use crate::limiter::{over_budget, over_budget_spec};
use crate::tracker::{tx_summary_spec, window_spec, Record, Report, Tracker};

verus! {

/// Relies on rand::random (0.8): a uniformly drawn `u32`; nothing is promised
/// of its value.
#[verifier::external_body]
fn random_stream_id() -> (r: u32) {
    rand::random::<u32>()
}

/// A sender run: paces data frames of `payload_size` bytes at `target_bps`
/// bits per second for `duration_us` microseconds, then ends the stream.
pub struct TxRun {
    pub stream_id: u32,
    /// The sequence number of the next data frame; also the count sent so far.
    pub next_sequence: u64,
    pub payload_size: usize,
    pub target_bps: u64,
    pub duration_us: u64,
    /// The time of the last data frame sent, or the start.
    pub last_send_us: u64,
    /// The latest time the run was given.
    pub now_us: u64,
    pub done: bool,
    pub tracker: Tracker,
}

/// What one pass of the sender's loop asks for.
pub struct TxStep {
    /// A data frame payload to send now; none means wait one resolution tick.
    pub frame: Option<Vec<u8>>,
    /// The run's window report.
    pub window: Option<Report>,
    /// When the run is over: the end-of-stream payload to send.
    pub end_frame: Option<Vec<u8>>,
    /// When the run is over: its summary.
    pub summary: Option<Report>,
}

/// The pacing bound: the bits sent exceed what the target allows over the
/// time elapsed by at most one frame.
pub open spec fn paced(total_bytes: int, elapsed_us: int, target_bps: int, payload_size: int) -> bool {
    8 * total_bytes * 1000000 <= target_bps * elapsed_us + 8 * payload_size * 1000000
}

impl TxRun {
    pub open spec fn wf(&self) -> bool {
        &&& self.tracker.wf()
        &&& self.payload_size >= HEADER_SIZE
        &&& self.tracker.records@.len() == self.next_sequence
        &&& forall|i: int| 0 <= i < self.tracker.records@.len() ==>
            (#[trigger] self.tracker.records@[i]).sequence == i && self.tracker.records@[i].len == self.payload_size
        &&& self.tracker.begin_us <= self.last_send_us <= self.now_us
        &&& self.tracker.records@.len() > 0 ==> self.tracker.records@.last().time_us == self.last_send_us
        &&& self.tracker.last_window_us <= self.now_us
        &&& paced(self.tracker.total_bytes as int, self.last_send_us - self.tracker.begin_us,
            self.target_bps as int, self.payload_size as int)
    }

    /// The header of the end-of-stream frame: it repeats the last data
    /// frame's sequence number (0 when none was sent).
    pub open spec fn end_header(&self) -> SequenceHeader {
        SequenceHeader {
            stream_id: self.stream_id,
            sequence: if self.next_sequence > 0 { (self.next_sequence - 1) as u64 } else { 0 },
            end_of_stream: true,
        }
    }

    /// A run of stream `stream_id` starting at `now_us`.
    pub fn new(stream_id: u32, payload_size: usize, target_bps: u64, duration_us: u64, now_us: u64) -> (r: TxRun)
        requires
            payload_size >= HEADER_SIZE,
        ensures
            r.wf(),
            !r.done,
            r.stream_id == stream_id,
            r.next_sequence == 0,
            r.payload_size == payload_size,
            r.target_bps == target_bps,
            r.duration_us == duration_us,
            r.tracker.begin_us == now_us,
            r.now_us == now_us,
    {
        TxRun {
            stream_id,
            next_sequence: 0,
            payload_size,
            target_bps,
            duration_us,
            last_send_us: now_us,
            now_us,
            done: false,
            tracker: Tracker::new(now_us),
        }
    }

    /// A run as `new` makes it, with a randomly drawn stream id.
    pub fn new_random(payload_size: usize, target_bps: u64, duration_us: u64, now_us: u64) -> (r: TxRun)
        requires
            payload_size >= HEADER_SIZE,
        ensures
            r.wf(),
            !r.done,
            r.next_sequence == 0,
            r.payload_size == payload_size,
            r.target_bps == target_bps,
            r.duration_us == duration_us,
            r.tracker.begin_us == now_us,
            r.now_us == now_us,
    {
        TxRun::new(random_stream_id(), payload_size, target_bps, duration_us, now_us)
    }

    /// One pass of the sender's loop at `now_us`. A data frame is sent when
    /// the average rate so far is within the target (and the counters have
    /// room); then the window report is taken; once the elapsed time exceeds
    /// the duration, the end-of-stream frame and the summary are handed out
    /// and the run is done.
    pub fn step(&mut self, now_us: u64) -> (r: TxStep)
        requires
            old(self).wf(),
            !old(self).done,
            old(self).now_us <= now_us,
        ensures
            final(self).wf(),
            final(self).now_us == now_us,
            final(self).stream_id == old(self).stream_id,
            final(self).payload_size == old(self).payload_size,
            final(self).target_bps == old(self).target_bps,
            final(self).duration_us == old(self).duration_us,
            final(self).tracker.begin_us == old(self).tracker.begin_us,
            ({
                let elapsed = now_us - old(self).tracker.begin_us;
                let send = !over_budget_spec(old(self).tracker.total_bytes as int, elapsed, old(self).target_bps as int)
                    && old(self).next_sequence < u64::MAX
                    && old(self).tracker.total_bytes + old(self).payload_size <= u64::MAX;
                let h = SequenceHeader { stream_id: old(self).stream_id, sequence: old(self).next_sequence, end_of_stream: false };
                &&& send ==> {
                    &&& r.frame is Some
                    &&& r.frame->Some_0@.len() == old(self).payload_size
                    &&& r.frame->Some_0@.subrange(0, HEADER_SIZE as int) == header_bytes(h)
                    &&& final(self).next_sequence == old(self).next_sequence + 1
                    &&& final(self).tracker.records@ == old(self).tracker.records@.push(
                        Record { time_us: now_us, sequence: h.sequence, len: old(self).payload_size as u64 })
                    &&& final(self).tracker.total_bytes == old(self).tracker.total_bytes + old(self).payload_size
                }
                &&& !send ==> {
                    &&& r.frame is None
                    &&& final(self).next_sequence == old(self).next_sequence
                    &&& final(self).tracker.records@ == old(self).tracker.records@
                }
                &&& r.window == window_spec(
                    final(self).tracker.records@,
                    old(self).tracker.begin_us,
                    old(self).tracker.last_window_us,
                    old(self).tracker.window_cursor,
                    now_us,
                    false,
                )
                &&& r.window is None ==> final(self).tracker.last_window_us == old(self).tracker.last_window_us
                    && final(self).tracker.window_cursor == old(self).tracker.window_cursor
                &&& r.window is Some ==> final(self).tracker.last_window_us == now_us
                    && final(self).tracker.window_cursor == (if final(self).tracker.records@.len() > 0 {
                        final(self).tracker.records@.len() - 1
                    } else {
                        0
                    })
                &&& final(self).done == (elapsed > old(self).duration_us)
                &&& final(self).done ==> {
                    &&& r.end_frame is Some
                    &&& r.end_frame->Some_0@.len() == old(self).payload_size
                    &&& r.end_frame->Some_0@.subrange(0, HEADER_SIZE as int) == header_bytes(final(self).end_header())
                    &&& r.summary == Some(tx_summary_spec(final(self).tracker))
                }
                &&& !final(self).done ==> r.end_frame is None && r.summary is None
            }),
    {
        let elapsed = now_us - self.tracker.begin_us;
        let psize = self.payload_size;
        let over = over_budget(self.tracker.total_bytes, elapsed, self.target_bps);
        let room = self.next_sequence < u64::MAX && self.tracker.total_bytes <= u64::MAX - psize as u64;
        self.now_us = now_us;
        let frame = if !over && room {
            let h = SequenceHeader { stream_id: self.stream_id, sequence: self.next_sequence, end_of_stream: false };
            let payload = build_payload(&h, psize);
            proof {
                let t = self.target_bps as int;
                let a = (self.last_send_us - self.tracker.begin_us) as int;
                assert(t * a <= t * elapsed) by (nonlinear_arith)
                    requires 0 <= a <= elapsed, t >= 0;
            }
            self.tracker.insert(self.next_sequence, psize as u64, now_us);
            self.next_sequence = self.next_sequence + 1;
            self.last_send_us = now_us;
            Some(payload)
        } else {
            None
        };
        let window = self.tracker.report_tx(now_us);
        if elapsed > self.duration_us {
            let end = SequenceHeader {
                stream_id: self.stream_id,
                sequence: if self.next_sequence > 0 { self.next_sequence - 1 } else { 0 },
                end_of_stream: true,
            };
            let end_frame = build_payload(&end, psize);
            let summary = self.tracker.report_tx_summary();
            self.done = true;
            TxStep { frame, window, end_frame: Some(end_frame), summary: Some(summary) }
        } else {
            TxStep { frame, window, end_frame: None, summary: None }
        }
    }
}

/// Pacing converges from above: at any time after the last data frame, the
/// run's average rate exceeds the target by at most one frame's bits over the
/// elapsed time, so a completed run's summary rate is at most
/// `B + 8 * payload_size / T`.
pub proof fn lemma_pacing_bound(run: TxRun, now_us: u64)
    requires
        run.wf(),
        run.last_send_us <= now_us,
    ensures
        paced(run.tracker.total_bytes as int, now_us - run.tracker.begin_us, run.target_bps as int, run.payload_size as int),
{
    let t = run.target_bps as int;
    let a = run.last_send_us - run.tracker.begin_us;
    let e = now_us - run.tracker.begin_us;
    assert(t * a <= t * e) by (nonlinear_arith)
        requires 0 <= a <= e, t >= 0;
}

} // verus!
