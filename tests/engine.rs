use l2perf::codec::{build_payload, decode, encode, DecodeError, SequenceHeader, HEADER_SIZE};
use l2perf::limiter::{over_budget, rate_bps};
use l2perf::rx::{Receiver, RxError};
use l2perf::tracker::Tracker;
use l2perf::tx::TxRun;

fn header(stream_id: u32, sequence: u64, end_of_stream: bool) -> SequenceHeader {
    SequenceHeader { stream_id, sequence, end_of_stream }
}

fn frame(stream_id: u32, sequence: u64, end_of_stream: bool) -> Vec<u8> {
    build_payload(&header(stream_id, sequence, end_of_stream), 64)
}

#[test]
fn encode_layout_is_little_endian_fixed_width() {
    let b = encode(&header(0x0403_0201, 0x0c0b_0a09_0807_0605, true));
    assert_eq!(b, vec![1, 2, 3, 4, 5, 6, 7, 8, 9, 10, 11, 12, 1]);
    assert_eq!(encode(&header(0, 0, false)).len(), HEADER_SIZE);
}

#[test]
fn round_trip_edge_headers() {
    for h in [
        header(0, 0, false),
        header(0, 0, true),
        header(u32::MAX, u64::MAX, true),
        header(0xdead_beef, 12345, false),
    ] {
        assert_eq!(decode(&encode(&h)), Ok(h));
        assert_eq!(decode(&build_payload(&h, 1500)), Ok(h));
    }
}

#[test]
fn decode_rejects_short_and_bad_flag() {
    let b = encode(&header(9, 9, false));
    assert_eq!(decode(&b[..12]), Err(DecodeError::Malformed));
    assert_eq!(decode(&[]), Err(DecodeError::Malformed));
    let mut bad = b.clone();
    bad[12] = 2;
    assert_eq!(decode(&bad), Err(DecodeError::Malformed));
}

#[test]
fn payload_is_header_then_zero_filler() {
    let p = build_payload(&header(1, 2, false), 100);
    assert_eq!(p.len(), 100);
    assert_eq!(&p[..HEADER_SIZE], &encode(&header(1, 2, false))[..]);
    assert!(p[HEADER_SIZE..].iter().all(|&b| b == 0));
}

#[test]
fn limiter_waits_at_start_and_above_target() {
    assert!(over_budget(0, 0, 1_000_000));
    assert!(!over_budget(0, 1, 1_000_000));
    assert!(!over_budget(1500, 12_000, 1_000_000));
    assert!(over_budget(1500, 11_999, 1_000_000));
}

#[test]
fn rate_is_bits_per_second() {
    assert_eq!(rate_bps(1500, 1_000_000), 12_000);
    assert_eq!(rate_bps(125_000, 500_000), 2_000_000);
    assert_eq!(rate_bps(10, 0), 0);
}

#[test]
fn total_bytes_is_sum_of_inserts() {
    let mut t = Tracker::new(0);
    let lens = [100u64, 1500, 64, 9000];
    let seqs = [3u64, 0, 2, 1];
    for i in 0..4 {
        t.insert(seqs[i], lens[i], 10 * i as u64);
    }
    assert_eq!(t.total_bytes, 100 + 1500 + 64 + 9000);
    assert_eq!(t.records.len(), 4);
}

#[test]
fn window_drop_rate_with_gap() {
    let mut t = Tracker::new(0);
    for (i, s) in [0u64, 1, 3, 4].iter().enumerate() {
        t.insert(*s, 100, 1000 * i as u64);
    }
    assert_eq!(t.report_rx(999_999), None);
    let r = t.report_rx(1_000_000).unwrap();
    assert_eq!(r.frames, 4);
    assert_eq!(r.bytes, 400);
    assert_eq!(r.rate_bps, 3200);
    assert_eq!((r.start_us, r.end_us), (0, 1_000_000));
    let loss = r.loss.unwrap();
    assert_eq!(loss.expected, 5);
    assert_eq!(loss.dropped, 1);
    assert_eq!(loss.drop_hundredths, 2000);
    assert_eq!(t.window_cursor, 3);
    assert_eq!(t.last_window_us, 1_000_000);
}

#[test]
fn tx_window_has_no_loss() {
    let mut t = Tracker::new(0);
    t.insert(0, 1500, 10);
    let r = t.report_tx(2_000_000).unwrap();
    assert_eq!(r.frames, 1);
    assert_eq!(r.loss, None);
    assert_eq!(r.rate_bps, 6000);
}

#[test]
fn out_of_order_is_flagged_and_kept() {
    let mut t = Tracker::new(0);
    assert!(!t.insert(7, 10, 1));
    assert!(t.insert(5, 10, 2));
    assert!(!t.insert(8, 10, 3));
    assert_eq!(t.records.len(), 3);
    assert_eq!(t.records[1].sequence, 5);
    assert_eq!(t.total_bytes, 30);
}

#[test]
fn summaries_cover_whole_stream() {
    let mut t = Tracker::new(1_000);
    assert_eq!(t.report_rx_summary(), None);
    t.insert(0, 1000, 2_000);
    t.insert(2, 1000, 1_001_000);
    let s = t.report_rx_summary().unwrap();
    assert_eq!((s.start_us, s.end_us, s.frames, s.bytes), (0, 1_000_000, 2, 2000));
    assert_eq!(s.rate_bps, 16_000);
    assert_eq!(s.loss.unwrap().drop_hundredths, 3333);
    let tx = t.report_tx_summary();
    assert_eq!((tx.end_us, tx.frames, tx.rate_bps, tx.loss), (1_000_000, 2, 16_000, None));
}

#[test]
fn tx_summary_spans_start_to_last_send() {
    let mut t = Tracker::new(0);
    let empty = t.report_tx_summary();
    assert_eq!((empty.end_us, empty.frames, empty.rate_bps), (0, 0, 0));
    t.insert(0, 1000, 1_000_000);
    let s = t.report_tx_summary();
    assert_eq!((s.end_us, s.frames, s.bytes, s.rate_bps), (1_000_000, 1, 1000, 8000));
}

#[test]
fn sender_step_reports_windows() {
    let mut run = TxRun::new(3, 125, 1_000_000, 10_000_000, 0);
    assert!(run.step(0).frame.is_none());
    let first = run.step(1_000);
    assert!(first.frame.is_some());
    assert_eq!(first.window, None);
    let s = run.step(1_000_000);
    assert!(s.frame.is_some());
    let w = s.window.unwrap();
    assert_eq!((w.start_us, w.end_us, w.frames, w.bytes), (0, 1_000_000, 2, 250));
    assert_eq!(w.rate_bps, 2000);
    assert_eq!(run.tracker.window_cursor, 1);
    assert_eq!(run.tracker.last_window_us, 1_000_000);
}

#[test]
fn single_record_loss_is_zero() {
    let mut t = Tracker::new(0);
    t.insert(42, 10, 5);
    let l = t.report_rx_summary().unwrap().loss.unwrap();
    assert_eq!((l.expected, l.dropped, l.drop_hundredths), (1, 0, 0));
}

#[test]
fn streams_are_demultiplexed() {
    let mut rx = Receiver::new(0);
    let a = 0xaaaa;
    let b = 0xbbbb;
    assert!(rx.on_frame(&frame(a, 0, false), 1).unwrap().new_stream);
    assert!(rx.on_frame(&frame(b, 0, false), 2).unwrap().new_stream);
    assert!(!rx.on_frame(&frame(a, 1, false), 3).unwrap().new_stream);
    assert!(!rx.on_frame(&frame(b, 1, false), 4).unwrap().new_stream);
    rx.on_frame(&frame(b, 2, false), 5).unwrap();
    let end = rx.on_frame(&frame(a, 1, true), 6).unwrap();
    let s = end.summary.unwrap();
    assert_eq!((s.frames, s.bytes), (2, 128));
    assert_eq!(rx.ids, vec![b]);
    assert_eq!(rx.trackers[0].records.len(), 3);
    assert_eq!(rx.trackers[0].total_bytes, 192);
}

#[test]
fn out_of_order_frame_is_reported() {
    let mut rx = Receiver::new(0);
    rx.on_frame(&frame(1, 7, false), 1).unwrap();
    let o = rx.on_frame(&frame(1, 5, false), 2).unwrap();
    assert!(o.out_of_order);
    assert_eq!(rx.trackers[0].records.len(), 2);
}

#[test]
fn malformed_frame_is_an_error() {
    let mut rx = Receiver::new(0);
    rx.on_frame(&frame(1, 0, false), 1).unwrap();
    let mut bad = frame(1, 1, false);
    bad[12] = 7;
    assert_eq!(rx.on_frame(&bad, 2).unwrap_err(), RxError::Malformed);
    assert_eq!(rx.on_frame(&[1, 2, 3], 2).unwrap_err(), RxError::Malformed);
    assert_eq!(rx.trackers[0].records.len(), 1);
}

#[test]
fn window_report_precedes_insert() {
    let mut rx = Receiver::new(0);
    rx.on_frame(&frame(1, 0, false), 0).unwrap();
    rx.on_frame(&frame(1, 1, false), 500_000).unwrap();
    let o = rx.on_frame(&frame(1, 2, false), 1_000_000).unwrap();
    let w = o.window.unwrap();
    assert_eq!(w.frames, 2);
    assert_eq!(w.loss.unwrap().expected, 2);
}

#[test]
fn timeout_flushes_every_stream() {
    let mut rx = Receiver::new(0);
    rx.on_frame(&frame(1, 0, false), 1).unwrap();
    rx.on_frame(&frame(2, 0, false), 2).unwrap();
    rx.on_frame(&frame(1, 1, false), 3).unwrap();
    let out = rx.on_timeout();
    assert_eq!(out.len(), 2);
    assert_eq!(out[0].0, 1);
    assert_eq!(out[0].1.unwrap().frames, 2);
    assert_eq!(out[1].0, 2);
    assert_eq!(out[1].1.unwrap().frames, 1);
    assert!(rx.ids.is_empty() && rx.trackers.is_empty());
    assert!(rx.on_timeout().is_empty());
}

#[test]
fn end_marker_of_unseen_stream() {
    let mut rx = Receiver::new(0);
    let o = rx.on_frame(&frame(5, 0, true), 1).unwrap();
    assert!(o.new_stream);
    assert_eq!(o.summary, None);
    assert!(rx.ids.is_empty());
}

#[test]
fn sender_run_of_two_seconds_at_one_megabit() {
    let mut run = TxRun::new(77, 1500, 1_000_000, 2_000_000, 0);
    let mut now: u64 = 0;
    let mut data: Vec<SequenceHeader> = Vec::new();
    let mut end: Option<SequenceHeader> = None;
    let mut summary = None;
    while !run.done {
        let s = run.step(now);
        match s.frame {
            Some(f) => {
                assert_eq!(f.len(), 1500);
                data.push(decode(&f).unwrap());
                now += 100;
            }
            None => now += 10_000,
        }
        if let Some(f) = s.end_frame {
            end = Some(decode(&f).unwrap());
            summary = s.summary;
        }
    }
    let n = data.len() as u64;
    assert!((160..=170).contains(&n), "{}", n);
    for (i, h) in data.iter().enumerate() {
        assert_eq!(*h, header(77, i as u64, false));
    }
    assert_eq!(end, Some(header(77, n - 1, true)));
    let s = summary.unwrap();
    assert_eq!(s.frames as u64, n);
    assert!(s.rate_bps <= 1_000_000 + 8 * 1500 * 1_000_000 / s.end_us as u128);
    assert!(s.rate_bps >= 950_000);
}

#[test]
fn random_stream_ids_start_at_zero() {
    let run = TxRun::new_random(64, 1_000_000, 1, 5);
    assert_eq!(run.next_sequence, 0);
    assert!(!run.done);
}
