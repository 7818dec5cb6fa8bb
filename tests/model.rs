use sdramemu::check::Fault;
use sdramemu::driver::{Driver, DriverConfig, Poll, Stats, TraceWindow, Verdict};
use sdramemu::payload::{AxiReadPayload, AxiWritePayload};

fn config(timeout: u64, trace: Option<TraceWindow>) -> DriverConfig {
    DriverConfig {
        bus_width_bits: 32,
        timeout,
        trace,
        mem_base: 0,
        mem_size: 0x10000,
        seed: 7,
    }
}

fn words() -> Vec<u32> {
    (0..256u32).map(|i| 0x0102_0304u32.wrapping_mul(i + 1) ^ 0xa5a5_0000).collect()
}

fn four_beat_write(id: u8) -> AxiWritePayload {
    AxiWritePayload::from_parts(id, 1, 4, 2, 0x1000, words(), vec![0; 256], 0x5a, 4)
}

#[test]
fn end_to_end_clean_read_back() {
    let mut d = Driver::new(config(100, None));
    let w = four_beat_write(3);
    assert_eq!(&w.strb[..4], &[0xf, 0xf, 0xf, 0xf]);
    let data = w.data.clone();
    d.issue_write(w);
    d.axi_write_done(3, 0, 0);
    let r = d.axi_read_ready();
    assert_eq!(r.valid, 1);
    assert_eq!(r.addr, 0x1000);
    assert_eq!(r.size, 2);
    assert_eq!(r.burst, 1);
    assert_eq!(r.len, 3);
    assert_eq!(r.id, 3);
    d.axi_read_done(data[..4].to_vec(), 4, 3, 1, 0, 0);
    assert!(d.faults().is_empty());
    assert!(!d.manual_finish());
    assert_eq!(
        d.stats(),
        Stats { writes: 1, write_dones: 1, reads: 1, read_dones: 1 }
    );
    assert_eq!(d.watchdog(1).verdict, Verdict::Continue);
}

#[test]
fn end_to_end_one_byte_differs() {
    let mut d = Driver::new(config(100, None));
    let w = four_beat_write(3);
    let mut data = w.data[..4].to_vec();
    d.issue_write(w);
    d.axi_write_done(3, 0, 0);
    let r = d.axi_read_ready();
    assert_eq!(r.valid, 1);
    let expected = ((data[2] >> 8) & 0xff) as u8;
    data[2] ^= 0x100;
    d.axi_read_done(data.clone(), 4, 3, 1, 0, 0);
    assert_eq!(
        d.faults(),
        &vec![Fault::ReadDataMismatch {
            beat: 2,
            lane: 1,
            expected_byte: expected,
            actual_byte: ((data[2] >> 8) & 0xff) as u8,
        }]
    );
    assert!(d.manual_finish());
    assert_eq!(d.watchdog(2).verdict, Verdict::Finish);
}

#[test]
fn read_ready_only_with_waiting_write_and_no_outstanding_read() {
    let mut d = Driver::new(config(100, None));
    assert_eq!(d.axi_read_ready().valid, 0);
    d.issue_write(four_beat_write(1));
    assert_eq!(d.axi_read_ready().valid, 0);
    d.axi_write_done(1, 0, 0);
    let mut second = four_beat_write(2);
    second.addr = 0x2000;
    d.issue_write(second);
    d.axi_write_done(2, 0, 0);
    assert_eq!(d.awaiting_read_count(), 2);
    let first = d.axi_read_ready();
    assert_eq!(first.valid, 1);
    assert_eq!(first.id, 1);
    assert_eq!(d.axi_read_ready().valid, 0);
    assert_eq!(d.issued_read_count(), 1);
    assert_eq!(d.awaiting_read_count(), 1);
    d.axi_read_done(words()[..4].to_vec(), 4, 1, 1, 0, 0);
    let next = d.axi_read_ready();
    assert_eq!(next.valid, 1);
    assert_eq!(next.id, 2);
    assert_eq!(next.addr, 0x2000);
}

#[test]
fn write_response_with_wrong_id_is_a_fault() {
    let mut d = Driver::new(config(100, None));
    d.issue_write(four_beat_write(4));
    d.axi_write_done(5, 0, 0);
    assert_eq!(
        d.faults(),
        &vec![Fault::WriteIdMismatch { expected: 4, actual: 5 }]
    );
    assert!(d.manual_finish());
    assert_eq!(d.awaiting_read_count(), 1);
    assert_eq!(d.issued_write_count(), 0);
}

#[test]
fn read_completion_header_faults_in_order() {
    let mut d = Driver::new(config(100, None));
    d.issue_write(four_beat_write(6));
    d.axi_write_done(6, 0, 0);
    d.axi_read_ready();
    d.axi_read_done(words()[..4].to_vec(), 3, 9, 0, 0, 0);
    assert_eq!(
        d.faults(),
        &vec![
            Fault::ReadLastMissing { last: 0 },
            Fault::ReadIdMismatch { expected: 6, actual: 9 },
            Fault::ReadLengthMismatch { expected_beats: 4, reported_beats: 3 },
        ]
    );
    assert_eq!(d.watchdog(0).verdict, Verdict::Finish);
}

#[test]
fn read_completion_with_too_few_words() {
    let mut d = Driver::new(config(100, None));
    d.issue_write(four_beat_write(0));
    d.axi_write_done(0, 0, 0);
    d.axi_read_ready();
    d.axi_read_done(words()[..2].to_vec(), 4, 0, 1, 0, 0);
    assert_eq!(
        d.faults(),
        &vec![Fault::ReadDataShort { expected_beats: 4, reported_words: 2 }]
    );
}

#[test]
fn later_writes_are_what_a_read_back_must_return() {
    let mut d = Driver::new(config(100, None));
    d.issue_write(four_beat_write(1));
    let mut over = AxiWritePayload::from_parts(2, 1, 1, 2, 0x1004, vec![0xdead_beef; 256], vec![0; 256], 0, 4);
    over.strb[0] = 0xf;
    d.issue_write(over);
    d.axi_write_done(1, 0, 0);
    d.axi_write_done(2, 0, 0);
    d.axi_read_ready();
    let mut returned = words()[..4].to_vec();
    returned[1] = 0xdead_beef;
    d.axi_read_done(returned, 4, 1, 1, 0, 0);
    assert!(d.faults().is_empty());
}

#[test]
fn watchdog_times_out_at_the_timeout_tick() {
    let mut d = Driver::new(config(10, None));
    for t in 0..10 {
        assert_eq!(d.watchdog(t), Poll { verdict: Verdict::Continue, start_dump: false });
    }
    assert_eq!(d.watchdog(10), Poll { verdict: Verdict::Timeout, start_dump: false });
    assert_eq!(d.watchdog(11).verdict, Verdict::Timeout);
}

#[test]
fn watchdog_starts_trace_once_and_stops_after_its_end() {
    let mut d = Driver::new(config(1000, Some(TraceWindow { start: 5, end: 20 })));
    assert!(!d.init());
    assert_eq!(d.watchdog(4), Poll { verdict: Verdict::Continue, start_dump: false });
    assert_eq!(d.watchdog(5), Poll { verdict: Verdict::Continue, start_dump: true });
    assert_eq!(d.watchdog(6), Poll { verdict: Verdict::Continue, start_dump: false });
    assert_eq!(d.watchdog(20).verdict, Verdict::Continue);
    assert_eq!(d.watchdog(21), Poll { verdict: Verdict::Timeout, start_dump: false });
}

#[test]
fn trace_from_tick_zero_starts_at_init() {
    let mut d = Driver::new(config(1000, Some(TraceWindow { start: 0, end: 0 })));
    assert!(d.init());
    assert_eq!(d.watchdog(0), Poll { verdict: Verdict::Continue, start_dump: false });
    assert_eq!(d.watchdog(5000).verdict, Verdict::Timeout);
}

#[test]
fn verdict_codes() {
    assert_eq!(Verdict::Continue.code(), 0);
    assert_eq!(Verdict::Timeout.code(), 1);
    assert_eq!(Verdict::Finish.code(), 2);
}

#[test]
fn generated_writes_are_issued_with_counted_ids() {
    let mut d = Driver::new(config(100, None));
    for i in 0..40u32 {
        let w = d.axi_write_ready();
        assert_eq!(w.id as u32, i & 0xf);
        assert_eq!(d.issued_write_count(), (i + 1) as usize);
    }
    assert_eq!(d.stats().writes, 40);
}

#[test]
fn idle_read_slot_is_invalid() {
    let mut d = Driver::new(config(100, None));
    let r: AxiReadPayload = d.axi_read_ready();
    assert_eq!(r.valid, 0);
    assert_eq!(d.stats().reads, 0);
}

#[test]
fn read_back_compares_the_lanes_the_strobe_enabled() {
    let mut d = Driver::new(config(100, None));
    let mut w = AxiWritePayload::from_parts(5, 0, 1, 0, 0x2000, vec![0x4433_2211; 256], vec![0; 256], 0, 4);
    w.strb[0] = 0b1000;
    d.issue_write(w);
    d.axi_write_done(5, 0, 0);
    assert_eq!(d.axi_read_ready().valid, 1);
    assert_eq!(d.memory().read_mem(0x2000, 4), &[0, 0, 0, 0x44]);
    d.axi_read_done(vec![0x4400_0000], 1, 5, 1, 0, 0);
    assert!(d.faults().is_empty());
}

#[test]
fn read_back_lane_mismatch_names_the_lane() {
    let mut d = Driver::new(config(100, None));
    let mut w = AxiWritePayload::from_parts(5, 0, 1, 0, 0x2000, vec![0x4433_2211; 256], vec![0; 256], 0, 4);
    w.strb[0] = 0b1000;
    d.issue_write(w);
    d.axi_write_done(5, 0, 0);
    d.axi_read_ready();
    d.axi_read_done(vec![0x1100_0000], 1, 5, 1, 0, 0);
    assert_eq!(
        d.faults(),
        &vec![Fault::ReadDataMismatch { beat: 0, lane: 3, expected_byte: 0x44, actual_byte: 0x11 }]
    );
}

#[test]
fn timeout_does_not_start_the_trace() {
    let mut d = Driver::new(config(10, Some(TraceWindow { start: 8, end: 0 })));
    assert_eq!(d.watchdog(12), Poll { verdict: Verdict::Timeout, start_dump: false });
    assert_eq!(d.watchdog(9), Poll { verdict: Verdict::Continue, start_dump: true });
}

#[test]
fn generated_write_strobes_match_beat_lanes() {
    let mut d = Driver::new(config(100, None));
    for _ in 0..100 {
        let w = d.axi_write_ready();
        let n = 1u32 << w.size;
        let beats = w.len as usize + 1;
        for k in 0..256usize {
            if k < beats {
                assert_ne!(w.strb[k], 0);
                assert_eq!(w.strb[k].count_ones(), n);
            } else {
                assert_eq!(w.strb[k], 0);
            }
        }
        if w.burst == 0 {
            assert!(beats <= 16);
        }
    }
}
