use sdramemu::driver::{Driver, DriverConfig};
use rand::SeedableRng;
use sdramemu::payload::{AxiReadPayload, AxiWritePayload};
use sdramemu::shadow::ShadowMem;

fn driver(bits: u32, seed: u64) -> Driver {
    Driver::new(DriverConfig {
        bus_width_bits: bits,
        timeout: 100,
        trace: None,
        mem_base: 0x4000,
        mem_size: 0x2000,
        seed,
    })
}

#[test]
fn generated_writes_are_aligned_and_legal() {
    for bits in [8u32, 16, 32] {
        let mut d = driver(bits, 11);
        for _ in 0..200 {
            let w = d.axi_write_ready();
            let n = 1u32 << w.size;
            assert!(n * 8 <= bits);
            assert_eq!(w.addr % n, 0);
            assert!(w.burst <= 2);
            let beats = w.len as u32 + 1;
            if w.burst == 2 {
                assert!([2, 4, 8, 16].contains(&beats));
            }
            if w.burst == 0 {
                assert!(beats <= 16);
            }
            assert!(w.addr >= 0x4000);
            assert!(w.addr + n <= 0x6000);
            assert_eq!(w.data.len(), 256);
            assert_eq!(w.strb.len(), 256);
            assert_eq!(w.w_user.len(), 256);
        }
    }
}

#[test]
fn generated_strobes_enable_exactly_the_beat_size() {
    let mut d = driver(32, 3);
    for _ in 0..200 {
        let w = d.axi_write_ready();
        let n = 1u32 << w.size;
        let beats = w.len as usize + 1;
        for (k, s) in w.strb.iter().enumerate() {
            if k < beats {
                assert_eq!(s.count_ones(), n);
            } else {
                assert_eq!(*s, 0);
            }
        }
    }
}

#[test]
fn generated_writes_differ_between_draws() {
    let mut d = driver(32, 5);
    let a = d.axi_write_ready();
    let b = d.axi_write_ready();
    assert_ne!(a.data, b.data);
    assert!(a.data.iter().any(|&x| x != 0));
}

#[test]
fn same_seed_same_stimulus() {
    let mut d1 = driver(32, 99);
    let mut d2 = driver(32, 99);
    for _ in 0..10 {
        let a = d1.axi_write_ready();
        let b = d2.axi_write_ready();
        assert_eq!(a.addr, b.addr);
        assert_eq!(a.data, b.data);
        assert_eq!(a.strb, b.strb);
    }
}

#[test]
fn generated_writes_land_in_shadow_memory() {
    let mut d = driver(32, 21);
    let w = d.axi_write_ready();
    let r = AxiReadPayload::from_write_payload(&w);
    let bytes = d.memory().read_mem_axi(r);
    let n = 1usize << w.size;
    assert_eq!(bytes.len(), (w.len as usize + 1) * n);
    if w.burst == 1 {
        for k in 0..=w.len as usize {
            let addr = w.addr as usize + k * n;
            let lane = addr % 4;
            for t in 0..n {
                let want = ((w.data[k] >> (8 * (lane + t))) & 0xff) as u8;
                assert_eq!(bytes[k * n + t], want);
            }
        }
    }
}

#[test]
fn random_read_payload_ranges() {
    let mut d = driver(32, 1);
    for _ in 0..50 {
        let r = d.axi_read_ready();
        assert_eq!(r.valid, 0);
        assert!(r.addr <= 255);
        assert!(r.burst <= 15 && r.cache <= 15 && r.lock <= 1 && r.prot <= 7);
        assert!(r.qos <= 15 && r.region <= 15 && r.size <= 15);
    }
}

#[test]
fn default_shadow_memory_window() {
    let m = ShadowMem::new();
    assert_eq!(m.base(), 0xfc00_0000);
    assert_eq!(m.size(), 0x0400_0000);
    assert_eq!(m.read_mem(0xfc00_1000, 4), &[0, 0, 0, 0]);
}

#[test]
fn random_strobe_has_the_asked_number_of_lanes() {
    let mut rng = rand::rngs::StdRng::seed_from_u64(42);
    for total in 0u8..=3 {
        for used in 0..=total {
            for _ in 0..20 {
                let s = AxiWritePayload::generate_random_strb(used, total, &mut rng);
                assert_eq!(s.count_ones(), 1 << used);
                if total < 3 {
                    assert_eq!(s >> (1u8 << total), 0);
                }
            }
        }
    }
}

#[test]
fn random_strobe_places_lanes_at_random() {
    let mut rng = rand::rngs::StdRng::seed_from_u64(3);
    let seen: Vec<u8> = (0..64)
        .map(|_| AxiWritePayload::generate_random_strb(0, 3, &mut rng))
        .collect();
    assert!(seen.iter().any(|&s| s != 1));
    assert!(seen.iter().all(|&s| s.count_ones() == 1));
}
