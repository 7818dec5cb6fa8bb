use sdramemu::burst::{bytes_per_beat, next_beat_address};
use sdramemu::payload::{AxiReadPayload, AxiWritePayload};
use sdramemu::shadow::ShadowMem;

fn payload(burst: u8, beats: u8, size: u8, addr: u32, data: Vec<u32>, strb: Vec<u8>) -> AxiWritePayload {
    AxiWritePayload {
        id: 1,
        len: beats - 1,
        addr,
        data,
        strb,
        w_user: vec![],
        aw_user: 0,
        data_valid: 1,
        burst,
        cache: 0,
        lock: 0,
        prot: 0,
        qos: 0,
        region: 0,
        size,
    }
}

fn read_of(w: &AxiWritePayload) -> AxiReadPayload {
    AxiReadPayload::from_write_payload(w)
}

#[test]
fn sequencer_steps() {
    assert_eq!(next_beat_address(0x100, 4, 0, 0, 0), 0x100);
    assert_eq!(next_beat_address(0x100, 4, 1, 0, 0), 0x104);
    assert_eq!(next_beat_address(0x108, 4, 2, 0x100, 0x110), 0x10c);
    assert_eq!(next_beat_address(0x10c, 4, 2, 0x100, 0x110), 0x100);
    assert_eq!(bytes_per_beat(0), 1);
    assert_eq!(bytes_per_beat(2), 4);
    assert_eq!(bytes_per_beat(7), 128);
}

#[test]
fn incrementing_write_reads_back() {
    let mut m = ShadowMem::with_window(0, 0x1000, 4);
    let w = payload(1, 2, 2, 0x10, vec![0x4433_2211, 0x8877_6655], vec![0xf, 0xf]);
    m.write_mem_axi(w.clone());
    assert_eq!(m.read_mem(0x10, 8), &[0x11, 0x22, 0x33, 0x44, 0x55, 0x66, 0x77, 0x88]);
    assert_eq!(
        m.read_mem_axi(read_of(&w)),
        vec![0x11, 0x22, 0x33, 0x44, 0x55, 0x66, 0x77, 0x88]
    );
}

#[test]
fn narrow_write_takes_bytes_from_its_lanes() {
    let mut m = ShadowMem::with_window(0, 0x1000, 4);
    let w = payload(
        1,
        4,
        0,
        0x21,
        vec![0xaabb_ccdd, 0xaabb_ccdd, 0xaabb_ccdd, 0xaabb_ccdd],
        vec![0b0010, 0b0100, 0b1000, 0b0001],
    );
    m.write_mem_axi(w.clone());
    assert_eq!(m.read_mem(0x21, 4), &[0xcc, 0xbb, 0xaa, 0xdd]);
    assert_eq!(m.read_mem_axi(read_of(&w)), vec![0xcc, 0xbb, 0xaa, 0xdd]);
}

#[test]
fn wrapping_write_wraps_at_window() {
    let mut m = ShadowMem::with_window(0, 0x1000, 4);
    let w = payload(2, 4, 2, 0x38, vec![1, 2, 3, 4], vec![0xf; 4]);
    m.write_mem_axi(w.clone());
    assert_eq!(m.read_mem(0x30, 4), &[3, 0, 0, 0]);
    assert_eq!(m.read_mem(0x34, 4), &[4, 0, 0, 0]);
    assert_eq!(m.read_mem(0x38, 4), &[1, 0, 0, 0]);
    assert_eq!(m.read_mem(0x3c, 4), &[2, 0, 0, 0]);
    assert_eq!(
        m.read_mem_axi(read_of(&w)),
        vec![1, 0, 0, 0, 2, 0, 0, 0, 3, 0, 0, 0, 4, 0, 0, 0]
    );
}

#[test]
fn fixed_write_keeps_the_last_beat() {
    let mut m = ShadowMem::with_window(0, 0x1000, 4);
    let w = payload(0, 3, 2, 0x40, vec![7, 8, 9], vec![0xf; 3]);
    m.write_mem_axi(w.clone());
    assert_eq!(m.read_mem(0x40, 4), &[9, 0, 0, 0]);
    assert_eq!(m.read_mem_axi(read_of(&w)), vec![9, 0, 0, 0, 9, 0, 0, 0, 9, 0, 0, 0]);
}

#[test]
fn zero_strobes_leave_memory_unchanged() {
    let mut m = ShadowMem::with_window(0, 0x100, 4);
    let first = payload(1, 2, 2, 0x10, vec![0x0403_0201, 0x0807_0605], vec![0xf, 0xf]);
    m.write_mem_axi(first);
    let before = m.read_mem(0, 0x100).to_vec();
    let idle = payload(1, 2, 2, 0x10, vec![0xffff_ffff, 0xffff_ffff], vec![0, 0]);
    m.write_mem_axi(idle);
    assert_eq!(m.read_mem(0, 0x100), &before[..]);
}

#[test]
fn beat_with_empty_strobe_is_skipped() {
    let mut m = ShadowMem::with_window(0, 0x100, 4);
    let w = payload(1, 3, 2, 0x20, vec![0x11111111, 0x22222222, 0x33333333], vec![0xf, 0, 0xf]);
    m.write_mem_axi(w);
    assert_eq!(m.read_mem(0x20, 12), &[0x11, 0x11, 0x11, 0x11, 0, 0, 0, 0, 0x33, 0x33, 0x33, 0x33]);
}

#[test]
fn alignment_check() {
    let m = ShadowMem::with_window(0, 0x100, 4);
    assert!(m.is_addr_align(0x10, 2));
    assert!(!m.is_addr_align(0x12, 2));
    assert!(m.is_addr_align(0x12, 1));
    assert!(m.is_addr_align(0x13, 0));
}

#[test]
fn sixteen_bit_bus_lanes() {
    let mut m = ShadowMem::with_window(0x400, 0x400, 2);
    let w = payload(1, 2, 0, 0x401, vec![0x0000_bbaa, 0x0000_ddcc], vec![0b10, 0b01]);
    m.write_mem_axi(w.clone());
    assert_eq!(m.read_mem(0x401, 2), &[0xbb, 0xcc]);
}

#[test]
fn strobe_on_other_lanes_writes_those_lanes() {
    let mut m = ShadowMem::with_window(0, 0x100, 4);
    let w = payload(1, 1, 0, 0x20, vec![0x4433_2211], vec![0b0100]);
    m.write_mem_axi(w.clone());
    assert_eq!(m.read_mem(0x20, 4), &[0, 0, 0x33, 0]);
    assert_eq!(m.read_mem_axi(read_of(&w)), vec![0]);
}

#[test]
fn scattered_strobes_write_each_enabled_lane() {
    let mut m = ShadowMem::with_window(0, 0x100, 4);
    let w = payload(1, 2, 1, 0x40, vec![0xaabb_ccdd, 0x1122_3344], vec![0b1001, 0b0110]);
    m.write_mem_axi(w);
    assert_eq!(m.read_mem(0x40, 4), &[0xdd, 0x33, 0x22, 0xaa]);
}
