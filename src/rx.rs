use vstd::prelude::*;
use crate::codec::{decode, header_of, header_ok, SequenceHeader};
use crate::tracker::{rx_summary_spec, window_report_spec, Record, Report, Tracker};

verus! {

/// Why a received frame could not be accounted.
#[derive(Clone, Copy, Debug, PartialEq, Eq, Structural)]
pub enum RxError {
    /// The payload does not start with a sequence header.
    Malformed,
    /// The stream's byte total would no longer fit in 64 bits.
    CounterOverflow,
}

/// What accounting one frame produced.
#[derive(Clone, Copy, Debug, PartialEq, Eq)]
pub struct FrameOutcome {
    pub header: SequenceHeader,
    /// The stream had no tracker before this frame.
    pub new_stream: bool,
    /// The stream's window report, taken before the frame is accounted.
    pub window: Option<Report>,
    /// The stream's summary, when the frame ended it.
    pub summary: Option<Report>,
    /// The frame arrived after one with a larger sequence number.
    pub out_of_order: bool,
}

/// The receiver's open streams: one tracker per stream id, `ids[i]` owning
/// `trackers[i]`. `now_us` is the latest time it was given.
pub struct Receiver {
    pub ids: Vec<u32>,
    pub trackers: Vec<Tracker>,
    pub now_us: u64,
}

/// The position of `id` in `ids`.
pub open spec fn pos(ids: Seq<u32>, id: u32) -> int {
    choose|i: int| 0 <= i < ids.len() && ids[i] == id
}

pub open spec fn unique(ids: Seq<u32>) -> bool {
    forall|i: int, j: int| 0 <= i < ids.len() && 0 <= j < ids.len() && i != j ==> ids[i] != ids[j]
}

proof fn lemma_pos(ids: Seq<u32>, i: int)
    requires
        unique(ids),
        0 <= i < ids.len(),
    ensures
        pos(ids, ids[i]) == i,
{
    let id = ids[i];
    assert(exists|k: int| 0 <= k < ids.len() && ids[k] == id);
}

impl Receiver {
    pub open spec fn wf(&self) -> bool {
        &&& self.ids@.len() == self.trackers@.len()
        &&& unique(self.ids@)
        &&& forall|i: int| 0 <= i < self.trackers@.len() ==> {
            &&& (#[trigger] self.trackers@[i]).wf()
            &&& self.trackers@[i].last_window_us <= self.now_us
            &&& self.trackers@[i].seen_by(self.now_us)
        }
    }

    /// The open streams, by id.
    pub open spec fn streams(&self) -> Map<u32, Tracker> {
        Map::new(|id: u32| self.ids@.contains(id), |id: u32| self.trackers@[pos(self.ids@, id)])
    }

    /// A receiver with no open stream.
    pub fn new(now_us: u64) -> (r: Receiver)
        ensures
            r.wf(),
            r.streams() == Map::<u32, Tracker>::empty(),
            r.now_us == now_us,
    {
        let r = Receiver { ids: Vec::new(), trackers: Vec::new(), now_us };
        assert(r.streams() =~= Map::<u32, Tracker>::empty());
        r
    }

    fn find(&self, id: u32) -> (r: Option<usize>)
        requires
            self.wf(),
        ensures
            r is None <==> !self.ids@.contains(id),
            r is Some ==> r->Some_0 < self.ids@.len() && self.ids@[r->Some_0 as int] == id,
    {
        let mut i: usize = 0;
        while i < self.ids.len()
            invariant
                i <= self.ids@.len(),
                forall|k: int| 0 <= k < i ==> self.ids@[k] != id,
            decreases self.ids@.len() - i,
        {
            if self.ids[i] == id {
                return Some(i);
            }
            i = i + 1;
        }
        None
    }

    /// Accounts one received frame payload at `now_us`. The frame goes to the
    /// tracker of its stream id, which is made on first sight. The tracker
    /// first gets its window report; an end-of-stream frame then closes it
    /// with its summary, any other frame is recorded with the payload's
    /// length. Other streams are left as they were.
    pub fn on_frame(&mut self, payload: &[u8], now_us: u64) -> (r: Result<FrameOutcome, RxError>)
        requires
            old(self).wf(),
            old(self).now_us <= now_us,
        ensures
            final(self).wf(),
            !header_ok(payload@) <==> r == Err::<FrameOutcome, RxError>(RxError::Malformed),
            r is Err ==> final(self).streams() == old(self).streams(),
            header_ok(payload@) ==> ({
                let h = header_of(payload@);
                let known = old(self).streams().contains_key(h.stream_id);
                let t = old(self).streams()[h.stream_id];
                let before = if known { t.records@ } else { Seq::<Record>::empty() };
                let total = if known { t.total_bytes as int } else { 0 };
                let len = payload@.len();
                if !h.end_of_stream && total + len > u64::MAX {
                    r == Err::<FrameOutcome, RxError>(RxError::CounterOverflow)
                } else {
                    &&& r is Ok
                    &&& final(self).now_us == now_us
                    &&& r->Ok_0.header == h
                    &&& r->Ok_0.new_stream == !known
                    &&& r->Ok_0.window == (if known { window_report_spec(t, now_us, true) } else { None })
                    &&& h.end_of_stream ==> {
                        &&& final(self).streams() == old(self).streams().remove(h.stream_id)
                        &&& r->Ok_0.summary == (if known { rx_summary_spec(t) } else { None })
                        &&& !r->Ok_0.out_of_order
                    }
                    &&& !h.end_of_stream ==> {
                        &&& final(self).streams().remove(h.stream_id) == old(self).streams().remove(h.stream_id)
                        &&& final(self).streams().contains_key(h.stream_id)
                        &&& final(self).streams()[h.stream_id].records@
                            == before.push(Record { time_us: now_us, sequence: h.sequence, len: len as u64 })
                        &&& final(self).streams()[h.stream_id].total_bytes == total + len
                        &&& r->Ok_0.summary is None
                        &&& r->Ok_0.out_of_order == (before.len() > 0 && before.last().sequence > h.sequence)
                    }
                }
            }),
    {
        let h = match decode(payload) {
            Ok(h) => h,
            Err(_) => return Err(RxError::Malformed),
        };
        let len = payload.len() as u64;
        let found = self.find(h.stream_id);
        proof {
            if found is Some {
                lemma_pos(self.ids@, found->Some_0 as int);
            }
        }
        let i: usize = match found {
            Some(i) => {
                if !h.end_of_stream && self.trackers[i].total_bytes > u64::MAX - len {
                    return Err(RxError::CounterOverflow);
                }
                i
            }
            None => {
                if !h.end_of_stream && len > u64::MAX {
                    return Err(RxError::CounterOverflow);
                }
                self.ids.push(h.stream_id);
                self.trackers.push(Tracker::new(now_us));
                self.ids.len() - 1
            }
        };
        let ghost mid_ids = self.ids@;
        let ghost mid_trackers = self.trackers@;
        proof {
            assert(unique(mid_ids));
            assert forall|k: u32| k != h.stream_id implies
                (#[trigger] mid_ids.contains(k) == old(self).ids@.contains(k))
                && (mid_ids.contains(k) ==> mid_trackers[pos(mid_ids, k)] == old(self).trackers@[pos(old(self).ids@, k)]) by {
                if old(self).ids@.contains(k) {
                    let j = choose|j: int| 0 <= j < old(self).ids@.len() && old(self).ids@[j] == k;
                    lemma_pos(old(self).ids@, j);
                    assert(mid_ids[j] == k);
                    lemma_pos(mid_ids, j);
                }
                if mid_ids.contains(k) {
                    let j = choose|j: int| 0 <= j < mid_ids.len() && mid_ids[j] == k;
                    assert(j < old(self).ids@.len());
                    assert(old(self).ids@[j] == k);
                }
            }
        }
        self.now_us = now_us;
        let mut t = self.trackers.remove(i);
        let window = t.report_rx(now_us);
        if h.end_of_stream {
            let summary = t.report_rx_summary();
            self.ids.remove(i);
            proof {
                assert forall|k: int| 0 <= k < self.trackers@.len() implies
                    (#[trigger] self.trackers@[k]).wf() && self.trackers@[k].last_window_us <= self.now_us
                    && self.trackers@[k].seen_by(self.now_us) by {
                    if k >= i {
                        assert(self.trackers@[k] == mid_trackers[k + 1]);
                    }
                }
                assert forall|k: u32| #[trigger] self.ids@.contains(k) implies mid_ids.contains(k) && k != h.stream_id by {
                    let j = choose|j: int| 0 <= j < self.ids@.len() && self.ids@[j] == k;
                    if j >= i {
                        assert(mid_ids[j + 1] == k);
                    } else {
                        assert(mid_ids[j] == k);
                    }
                }
                assert forall|k: u32| #[trigger] self.ids@.contains(k) implies
                    self.trackers@[pos(self.ids@, k)] == mid_trackers[pos(mid_ids, k)] by {
                    let j = choose|j: int| 0 <= j < self.ids@.len() && self.ids@[j] == k;
                    lemma_pos(self.ids@, j);
                    if j >= i {
                        lemma_pos(mid_ids, j + 1);
                    } else {
                        lemma_pos(mid_ids, j);
                    }
                }
                assert forall|k: u32| mid_ids.contains(k) && k != h.stream_id implies #[trigger] self.ids@.contains(k) by {
                    let j = choose|j: int| 0 <= j < mid_ids.len() && mid_ids[j] == k;
                    if j > i {
                        assert(self.ids@[j - 1] == k);
                    } else {
                        assert(j != i);
                        assert(self.ids@[j] == k);
                    }
                }
                assert forall|k: u32| #[trigger] self.streams().contains_key(k) implies
                    old(self).streams().remove(h.stream_id).contains_key(k)
                    && self.streams()[k] == old(self).streams().remove(h.stream_id)[k] by {
                    assert(mid_ids.contains(k));
                }
                assert forall|k: u32| #[trigger] old(self).streams().remove(h.stream_id).contains_key(k) implies
                    self.streams().contains_key(k) by {
                    assert(mid_ids.contains(k));
                }
                assert(self.streams() =~= old(self).streams().remove(h.stream_id));
            }
            Ok(FrameOutcome { header: h, new_stream: found.is_none(), window, summary, out_of_order: false })
        } else {
            let out_of_order = t.insert(h.sequence, len, now_us);
            self.trackers.insert(i, t);
            proof {
                assert(self.trackers@ =~= mid_trackers.update(i as int, t));
                assert(self.ids@ == mid_ids);
                lemma_pos(mid_ids, i as int);
                assert forall|k: u32| #[trigger] mid_ids.contains(k) && k != h.stream_id implies
                    pos(mid_ids, k) != i by {
                }
                assert forall|k: u32| k != h.stream_id && #[trigger] self.streams().contains_key(k) implies
                    self.streams()[k] == old(self).streams()[k] by {
                    lemma_pos(mid_ids, i as int);
                    let j = choose|j: int| 0 <= j < mid_ids.len() && mid_ids[j] == k;
                    lemma_pos(mid_ids, j);
                }
                assert(self.streams().remove(h.stream_id) =~= old(self).streams().remove(h.stream_id));
            }
            Ok(FrameOutcome { header: h, new_stream: found.is_none(), window, summary: None, out_of_order })
        }
    }

    /// Inactivity flush: no frame came within the read timeout, so every open
    /// stream is closed, ended or not. Returns each stream's id and summary,
    /// in the order the streams were opened, and leaves no stream open.
    pub fn on_timeout(&mut self) -> (r: Vec<(u32, Option<Report>)>)
        requires
            old(self).wf(),
        ensures
            final(self).wf(),
            final(self).streams() == Map::<u32, Tracker>::empty(),
            final(self).now_us == old(self).now_us,
            r@.len() == old(self).ids@.len(),
            forall|i: int| 0 <= i < r@.len() ==>
                #[trigger] r@[i] == (old(self).ids@[i], rx_summary_spec(old(self).trackers@[i])),
    {
        let mut out: Vec<(u32, Option<Report>)> = Vec::new();
        let mut i: usize = 0;
        while i < self.ids.len()
            invariant
                self.wf(),
                *self == *old(self),
                i <= self.ids@.len(),
                out@.len() == i,
                forall|k: int| 0 <= k < i ==>
                    #[trigger] out@[k] == (self.ids@[k], rx_summary_spec(self.trackers@[k])),
            decreases self.ids@.len() - i,
        {
            out.push((self.ids[i], self.trackers[i].report_rx_summary()));
            i = i + 1;
        }
        self.ids.clear();
        self.trackers.clear();
        assert(self.streams() =~= Map::<u32, Tracker>::empty());
        out
    }
}

} // verus!
