use sdramemu::args::{CommonArgs, OfflineArgs};
use sdramemu::bytes::{ToBytes, ToBytesBe};
use sdramemu::driver::TraceWindow;
use sdramemu::payload::{AxiReadPayload, AxiWritePayload};
use sdramemu::range::parse_range;

#[test]
fn range_forms() {
    assert_eq!(parse_range(""), Some((0, 0)));
    assert_eq!(parse_range("10"), Some((10, 0)));
    assert_eq!(parse_range("10,20"), Some((10, 20)));
    assert_eq!(parse_range(",20"), Some((0, 20)));
    assert_eq!(parse_range("+7,+9"), Some((7, 9)));
    assert_eq!(parse_range("1,2,3"), Some((0, 0)));
    assert_eq!(parse_range("18446744073709551615"), Some((u64::MAX, 0)));
}

#[test]
fn range_rejections() {
    assert_eq!(parse_range("20,10"), None);
    assert_eq!(parse_range("abc"), None);
    assert_eq!(parse_range("5,"), None);
    assert_eq!(parse_range("+"), None);
    assert_eq!(parse_range("18446744073709551616"), None);
    assert_eq!(parse_range("1 ,2"), None);
}

#[test]
fn word_layouts() {
    assert_eq!(0x1122_3344u32.to_bytes(), vec![0x44, 0x33, 0x22, 0x11]);
    assert_eq!(0x1122_3344u32.to_bytes_be(), vec![0x11, 0x22, 0x33, 0x44]);
    let v: Vec<u32> = vec![0x0403_0201, 0x0807_0605];
    assert_eq!(v.to_bytes(), vec![1, 2, 3, 4, 5, 6, 7, 8]);
    assert_eq!(v.to_bytes_be(), vec![4, 3, 2, 1, 8, 7, 6, 5]);
    assert_eq!(Vec::<u32>::new().to_bytes(), Vec::<u8>::new());
}

#[test]
fn read_payload_layout() {
    let r = AxiReadPayload {
        addr: 0x1234_5678,
        id: 1,
        user: 2,
        burst: 3,
        cache: 4,
        len: 5,
        lock: 6,
        prot: 7,
        qos: 8,
        region: 9,
        size: 10,
        valid: 11,
    };
    assert_eq!(
        r.to_bytes(),
        vec![11, 10, 9, 8, 7, 6, 5, 4, 3, 2, 1, 0x78, 0x56, 0x34, 0x12]
    );
}

#[test]
fn write_payload_layout() {
    let w = AxiWritePayload {
        id: 1,
        len: 2,
        addr: 0xa0b0_c0d0,
        data: vec![0x0403_0201],
        strb: vec![0xf],
        w_user: vec![0x77],
        aw_user: 3,
        data_valid: 4,
        burst: 5,
        cache: 6,
        lock: 7,
        prot: 8,
        qos: 9,
        region: 10,
        size: 11,
    };
    assert_eq!(
        w.to_bytes(),
        vec![11, 10, 9, 8, 7, 6, 5, 4, 3, 0x77, 0xf, 1, 2, 3, 4, 0xd0, 0xc0, 0xb0, 0xa0, 2, 1]
    );
}

#[test]
fn read_back_request_copies_the_write() {
    let w = AxiWritePayload::from_parts(9, 2, 8, 1, 0x100, vec![0; 256], vec![0; 256], 0x42, 4);
    let r = AxiReadPayload::from_write_payload(&w);
    assert_eq!(r.addr, 0x100);
    assert_eq!(r.id, 9);
    assert_eq!(r.user, 0x42);
    assert_eq!(r.burst, 2);
    assert_eq!(r.len, 7);
    assert_eq!(r.size, 1);
    assert_eq!(r.cache, 0x77);
    assert_eq!(r.lock, 0x88);
    assert_eq!(r.prot, 0x99);
    assert_eq!(r.qos, 0xaa);
    assert_eq!(r.region, 0xbb);
    assert_eq!(r.valid, 1);
}

#[test]
fn built_write_strobes_follow_lanes() {
    let w = AxiWritePayload::from_parts(0, 1, 5, 1, 0x102, vec![0; 256], vec![0; 256], 0, 4);
    assert_eq!(&w.strb[..6], &[0b1100, 0b0011, 0b1100, 0b0011, 0b1100, 0]);
    assert_eq!(w.len, 4);
}

#[test]
fn common_args_defaults_and_values() {
    let a = CommonArgs::from_plusargs(None, None, None).unwrap();
    assert_eq!(a.log_level, "info");
    assert_eq!(a.vlen, 32);
    assert_eq!(a.dlen, 32);
    let b = CommonArgs::from_plusargs(Some("debug"), Some("1024"), Some("16")).unwrap();
    assert_eq!(b.log_level, "debug");
    assert_eq!(b.vlen, 1024);
    assert_eq!(b.dlen, 16);
    assert!(CommonArgs::from_plusargs(None, Some("x"), None).is_none());
    assert!(CommonArgs::from_plusargs(None, None, Some("4294967296")).is_none());
}

#[test]
fn offline_args_to_config() {
    let common = CommonArgs::from_plusargs(None, None, None).unwrap();
    let args = OfflineArgs::from_plusargs(common, "100,200", "wave.fsdb");
    assert_eq!(args.wave_path, "wave.fsdb");
    assert_eq!(args.dump_range, "100,200");
    let c = args.driver_config(5000, true, 1).unwrap();
    assert_eq!(c.bus_width_bits, 32);
    assert_eq!(c.timeout, 5000);
    assert_eq!(c.trace, Some(TraceWindow { start: 100, end: 200 }));
    assert_eq!(c.mem_base, 0xfc00_0000);
    let untraced = args.driver_config(5000, false, 1).unwrap();
    assert_eq!(untraced.trace, None);
    let bad = OfflineArgs::from_plusargs(CommonArgs::from_plusargs(None, None, None).unwrap(), "9,3", "w");
    assert!(bad.driver_config(1, true, 1).is_none());
    let wide = OfflineArgs::from_plusargs(CommonArgs::from_plusargs(None, None, Some("64")).unwrap(), "", "w");
    assert!(wide.driver_config(1, false, 1).is_none());
}
