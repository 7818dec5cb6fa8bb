//! Randomized, protocol-legal stimulus: write requests placed inside the
//! modelled window, and the filler carried by idle read slots.

use rand::rngs::StdRng;
use vstd::prelude::*;
use vstd::arithmetic::div_mod::{lemma_fundamental_div_mod, lemma_mod_mod, lemma_mod_multiples_basic};
use crate::burst::{
    beat_address, beat_bytes, burst_in_window, bytes_per_beat, legal_wrap_beats,
    lemma_fixed_beat_address, lemma_incr_beat_address, lemma_wrap_beats_in_window,
    next_beat_address, wrap_lower, wrap_upper, BURST_FIXED, BURST_INCR, BURST_WRAP,
};
use crate::payload::{lane_mask, popcount, valid_bus, AxiReadPayload, AxiWritePayload};
use crate::rng::{draw, shuffle};

verus! {

/// Cache attribute carried by every generated write.
pub const WRITE_CACHE: u8 = 0x77;

/// Lock attribute carried by every generated write.
pub const WRITE_LOCK: u8 = 0x88;

/// Protection attribute carried by every generated write.
pub const WRITE_PROT: u8 = 0x99;

/// QoS attribute carried by every generated write.
pub const WRITE_QOS: u8 = 0xaa;

/// Region attribute carried by every generated write.
pub const WRITE_REGION: u8 = 0xbb;

/// Number of data words, strobes and user bytes a write request carries.
pub const WRITE_SLOTS: u32 = 256;

/// Alignment of the window base that generated writes are placed in.
pub const WINDOW_ALIGN: u32 = 1024;

/// The largest size code a bus of `bus` bytes carries.
pub open spec fn max_size(bus: int) -> int {
    if bus == 4 {
        2
    } else if bus == 2 {
        1
    } else {
        0
    }
}

/// Returns the strobe that enables `n` lanes from lane `off` on.
pub fn strobe_for(off: u8, n: u8) -> (s: u8)
    requires
        off < 8,
        n == 1 || n == 2 || n == 4,
    ensures
        s == lane_mask(off, n),
{
    let low: u8 = if n == 1 {
        1
    } else if n == 2 {
        3
    } else {
        15
    };
    low << off
}

/// `b` is a multiple of `d` no larger than `x`: rounding `x` down to a
/// multiple of `d` stays at or above `b`.
proof fn lemma_floor_multiple(x: int, d: int, b: int)
    requires
        d > 0,
        b % d == 0,
        0 <= b <= x,
    ensures
        b <= x / d * d <= x,
        (x / d * d) % d == 0,
{
    lemma_fundamental_div_mod(x, d);
    lemma_fundamental_div_mod(b, d);
    vstd::arithmetic::div_mod::lemma_div_is_ordered(b, x, d);
    assert(b / d * d <= x / d * d) by (nonlinear_arith)
        requires
            b / d <= x / d,
            d > 0,
    ;
    assert(x / d * d == d * (x / d)) by (nonlinear_arith);
    assert(b / d * d == d * (b / d)) by (nonlinear_arith);
    lemma_mod_multiples_basic(x / d, d);
}

/// A multiple of 1024 is a multiple of every power of two up to 64.
pub(crate) proof fn lemma_window_base_divides(base: int, d: int)
    requires
        base % 1024 == 0,
        d == 1 || d == 2 || d == 4 || d == 8 || d == 16 || d == 32 || d == 64,
    ensures
        base % d == 0,
{
    if d == 1 {
        lemma_mod_mod(base, 1, 1024);
    } else if d == 2 {
        lemma_mod_mod(base, 2, 512);
    } else if d == 4 {
        lemma_mod_mod(base, 4, 256);
    } else if d == 8 {
        lemma_mod_mod(base, 8, 128);
    } else if d == 16 {
        lemma_mod_mod(base, 16, 64);
    } else if d == 32 {
        lemma_mod_mod(base, 32, 32);
    } else {
        lemma_mod_mod(base, 64, 16);
    }
}

/// A burst of legal length whose address is `base + off` rounded down to
/// its beat size, with `off` at least 1024 bytes below the window's end,
/// lies in the window.
proof fn lemma_placed_in_window(base: int, len: int, off: int, n: int, burst: u8, beats: int)
    requires
        base >= 0,
        base % 1024 == 0,
        0 <= off,
        off + 1024 <= len,
        n == 1 || n == 2 || n == 4,
        burst <= BURST_WRAP,
        1 <= beats <= 256,
        burst == BURST_WRAP ==> legal_wrap_beats(beats),
    ensures
        (base + off) / n * n % n == 0,
        burst_in_window((base + off) / n * n, n, burst, beats, base, len),
{
    let addr = (base + off) / n * n;
    lemma_window_base_divides(base, n);
    lemma_floor_multiple(base + off, n, base);
    assert forall|k: nat| k < beats implies base <= #[trigger] beat_address(
        addr,
        n,
        burst,
        beats,
        k,
    ) && beat_address(addr, n, burst, beats, k) + n <= base + len by {
        if burst == BURST_FIXED {
            lemma_fixed_beat_address(addr, n, beats, k);
        } else if burst == BURST_INCR {
            lemma_incr_beat_address(addr, n, beats, k);
            assert(k * n >= 0 && (k + 1) * n <= 1024) by (nonlinear_arith)
                requires
                    k < beats <= 256,
                    1 <= n <= 4,
            ;
            assert(addr + k * n + n == addr + (k + 1) * n) by (nonlinear_arith);
        } else {
            let span = n * beats;
            assert(span == 2 || span == 4 || span == 8 || span == 16 || span == 32 || span == 64)
                by (nonlinear_arith)
                requires
                    n == 1 || n == 2 || n == 4,
                    beats == 2 || beats == 4 || beats == 8 || beats == 16,
                    span == n * beats,
            ;
            lemma_window_base_divides(base, span);
            lemma_floor_multiple(addr, span, base);
            lemma_wrap_beats_in_window(addr, n, beats, k);
        }
    }
}

/// Setting bit `i` of a byte whose bits from `i` up are clear adds `b` to
/// its set bits and keeps the bits above `i` clear.
proof fn lemma_set_next_bit(x: u8, b: u8, i: u8)
    requires
        i < 8,
        b <= 1,
        x >> i == 0,
    ensures
        popcount(x | (b << i)) == popcount(x) + b,
        i < 7 ==> (x | (b << i)) >> ((i + 1) as u8) == 0,
{
    assert(popcount(x | (b << i)) == popcount(x) + b && (i < 7 ==> (x | (b << i)) >> ((i + 1) as u8) == 0))
        by (bit_vector)
        requires
            i < 8,
            b <= 1,
            x >> i == 0,
    ;
}

impl AxiWritePayload {
    /// A random strobe over the `2^total_bit` low lanes with `2^use_bit` of
    /// them enabled: that many ones and the rest zeros, shuffled, then packed
    /// with the first element on lane 0.
    pub fn generate_random_strb(use_bit: u8, total_bit: u8, rng: &mut StdRng) -> (r: u8)
        requires
            use_bit <= total_bit <= 3,
        ensures
            popcount(r) as int == beat_bytes(use_bit),
            total_bit < 3 ==> r >> (beat_bytes(total_bit) as u8) == 0,
    {
        let ones_count = bytes_per_beat(use_bit);
        let total = bytes_per_beat(total_bit);
        proof {
            vstd::arithmetic::power2::lemma2_to64();
        }
        let mut bits: Vec<u8> = Vec::new();
        proof {
            vstd::seq_lib::to_multiset_contains(bits@, 1u8);
        }
        let mut i: u32 = 0;
        while i < total
            invariant
                i <= total <= 8,
                ones_count <= total,
                bits@.len() == i,
                bits@.to_multiset().count(1u8) == if i < ones_count { i } else { ones_count },
                forall|k: int| 0 <= k < i ==> #[trigger] bits@[k] <= 1,
            decreases total - i,
        {
            let bit: u8 = if i < ones_count {
                1
            } else {
                0
            };
            proof {
                vstd::seq_lib::to_multiset_build(bits@, bit);
            }
            bits.push(bit);
            i += 1;
        }
        let ghost before = bits@;
        shuffle(&mut bits, rng);
        proof {
            vstd::seq_lib::to_multiset_len(before);
            vstd::seq_lib::to_multiset_len(bits@);
            assert forall|k: int| 0 <= k < bits@.len() implies #[trigger] bits@[k] <= 1 by {
                vstd::seq_lib::to_multiset_contains(bits@, bits@[k]);
                vstd::seq_lib::to_multiset_contains(before, bits@[k]);
            }
        }
        let mut result: u8 = 0;
        proof {
            vstd::seq_lib::to_multiset_contains(bits@.subrange(0, 0), 1u8);
            assert(popcount(0u8) == 0 && 0u8 >> 0u8 == 0) by (bit_vector);
        }
        let mut j: usize = 0;
        while j < bits.len()
            invariant
                bits@.len() == total,
                total <= 8,
                j <= total,
                forall|k: int| 0 <= k < bits@.len() ==> #[trigger] bits@[k] <= 1,
                popcount(result) as int == bits@.subrange(0, j as int).to_multiset().count(1u8),
                j < 8 ==> result >> (j as u8) == 0,
            decreases total - j,
        {
            let b = bits[j];
            proof {
                lemma_set_next_bit(result, b, j as u8);
                vstd::seq_lib::to_multiset_build(bits@.subrange(0, j as int), b);
                assert(bits@.subrange(0, j + 1) =~= bits@.subrange(0, j as int).push(b));
            }
            result = result | (b << (j as u8));
            j += 1;
        }
        assert(bits@.subrange(0, bits@.len() as int) =~= bits@);
        result
    }

    /// Builds a write request of `beats` beats from its parts. Each of the
    /// first `beats` strobes enables exactly the lanes of its beat; the rest
    /// are empty. The attributes take the model's fixed values.
    pub fn from_parts(
        id: u8,
        burst: u8,
        beats: u32,
        size: u8,
        addr: u32,
        data: Vec<u32>,
        w_user: Vec<u8>,
        aw_user: u8,
        bus: u32,
    ) -> (r: Self)
        requires
            valid_bus(bus as int),
            burst <= BURST_WRAP,
            1 <= beats <= 256,
            burst == BURST_WRAP ==> legal_wrap_beats(beats as int),
            size <= max_size(bus as int),
            addr as int % beat_bytes(size) as int == 0,
            data@.len() >= beats,
            burst_in_window(
                addr as int,
                beat_bytes(size) as int,
                burst,
                beats as int,
                0,
                0x1_0000_0000,
            ),
        ensures
            r@.wf(bus as int),
            r.id == id,
            r.burst == burst,
            r.len + 1 == beats,
            r.size == size,
            r.addr == addr,
            r.data@ == data@,
            r.w_user@ == w_user@,
            r.aw_user == aw_user,
            r.data_valid == 1,
            r.cache == WRITE_CACHE,
            r.lock == WRITE_LOCK,
            r.prot == WRITE_PROT,
            r.qos == WRITE_QOS,
            r.region == WRITE_REGION,
            r.strb@.len() == data@.len(),
            forall|k: int|
                0 <= k < r.strb@.len() ==> #[trigger] r.strb@[k] == if k < beats {
                    lane_mask(r@.beat_lane(k, bus as int) as u8, beat_bytes(size) as u8)
                } else {
                    0
                },
    {
        let n = bytes_per_beat(size);
        let n64 = n as u64;
        let beats64 = beats as u64;
        assert(n64 * beats64 <= 4 * 256) by (nonlinear_arith)
            requires
                n64 <= 4,
                beats64 <= 256,
        ;
        let span: u64 = n64 * beats64;
        proof {
            crate::burst::lemma_span_floor(addr as int, n as int, beats as int);
        }
        let lower: u64 = addr as u64 / span * span;
        let upper: u64 = lower + span;
        let mut strb: Vec<u8> = Vec::new();
        let mut cur: u64 = addr as u64;
        let mut k: u32 = 0;
        while k < beats
            invariant
                valid_bus(bus as int),
                size <= max_size(bus as int),
                n == beat_bytes(size),
                n == 1 || n == 2 || n == 4,
                n as int <= bus,
                n64 == n,
                beats64 == beats,
                1 <= beats <= 256,
                addr as int % n as int == 0,
                span == n * beats,
                lower == wrap_lower(addr as int, n as int, beats as int),
                upper == wrap_upper(addr as int, n as int, beats as int),
                burst <= BURST_WRAP,
                burst_in_window(addr as int, n as int, burst, beats as int, 0, 0x1_0000_0000),
                k <= beats,
                cur == beat_address(addr as int, n as int, burst, beats as int, k as nat),
                strb@.len() == k,
                forall|j: int|
                    0 <= j < k ==> #[trigger] strb@[j] == lane_mask(
                        (beat_address(addr as int, n as int, burst, beats as int, j as nat)
                            % bus as int) as u8,
                        n as u8,
                    ),
            decreases beats - k,
        {
            proof {
                let kk = k as nat;
                assert(kk < beats);
            }
            let off = (cur % bus as u64) as u8;
            let s = strobe_for(off, n as u8);
            strb.push(s);
            cur = next_beat_address(cur, n64, burst, lower, upper);
            k += 1;
        }
        let mut j: usize = beats as usize;
        while j < data.len()
            invariant
                beats <= j <= data@.len(),
                strb@.len() == j,
                forall|i: int|
                    0 <= i < beats ==> #[trigger] strb@[i] == lane_mask(
                        (beat_address(addr as int, n as int, burst, beats as int, i as nat)
                            % bus as int) as u8,
                        n as u8,
                    ),
                forall|i: int| beats <= i < j ==> #[trigger] strb@[i] == 0,
            decreases data@.len() - j,
        {
            strb.push(0);
            j += 1;
        }
        let r = AxiWritePayload {
            id,
            len: (beats - 1) as u8,
            addr,
            data,
            strb,
            w_user,
            aw_user,
            data_valid: 1,
            burst,
            cache: WRITE_CACHE,
            lock: WRITE_LOCK,
            prot: WRITE_PROT,
            qos: WRITE_QOS,
            region: WRITE_REGION,
            size,
        };
        assert forall|i: int| 0 <= i < r@.beats() implies #[trigger] r@.strobe_ok(i, bus as int) by {
            let a = beat_address(addr as int, n as int, burst, beats as int, i as nat);
            assert(r.strb@[i] == lane_mask((a % bus as int) as u8, n as u8));
            crate::burst::lemma_beat_aligned(addr as int, n as int, burst, beats as int, i as nat);
            crate::payload::lemma_lane_fits(a, n as int, bus as int);
            crate::payload::lemma_lane_mask_legal((a % bus as int) as u8, n as u8, bus as u8);
        }
        r
    }

    /// A random legal write request with identifier `id` for a bus of `bus`
    /// bytes, placed in the window `[base, base + size)`: a random burst type,
    /// a legal beat count for it (1 to 16 fixed, 1 to 256 incrementing, 2, 4,
    /// 8 or 16 wrapping), a random size up to the bus width, an address
    /// aligned to the beat size, and random data and user bytes.
    pub fn random(rng: &mut StdRng, id: u8, bus: u32, base: u32, size: u32) -> (r: Self)
        requires
            valid_bus(bus as int),
            base % WINDOW_ALIGN == 0,
            WINDOW_ALIGN <= size,
            base + size <= 0x1_0000_0000,
        ensures
            r@.wf(bus as int),
            r@.in_window(base as int, size as int),
            r.id == id,
            r.data_valid == 1,
            r.cache == WRITE_CACHE,
            r.lock == WRITE_LOCK,
            r.prot == WRITE_PROT,
            r.qos == WRITE_QOS,
            r.region == WRITE_REGION,
            r.data@.len() == WRITE_SLOTS,
            r.strb@.len() == WRITE_SLOTS,
            r.w_user@.len() == WRITE_SLOTS,
            r.size <= max_size(bus as int),
            r.burst == BURST_FIXED ==> r@.beats() <= 16,
            forall|k: int|
                0 <= k < r.strb@.len() ==> #[trigger] r.strb@[k] == if k < r@.beats() {
                    lane_mask(r@.beat_lane(k, bus as int) as u8, beat_bytes(r.size) as u8)
                } else {
                    0
                },
    {
        let burst = draw(rng, 0, 2) as u8;
        let beats: u32 = if burst == BURST_FIXED {
            draw(rng, 1, 16)
        } else if burst == BURST_INCR {
            draw(rng, 1, 256)
        } else {
            let e = draw(rng, 1, 4);
            if e == 1 {
                2
            } else if e == 2 {
                4
            } else if e == 3 {
                8
            } else {
                16
            }
        };
        let top: u32 = if bus == 4 {
            2
        } else if bus == 2 {
            1
        } else {
            0
        };
        let beat_size = draw(rng, 0, top) as u8;
        let n = bytes_per_beat(beat_size);
        assert(n as int <= bus) by {
            vstd::arithmetic::power2::lemma2_to64();
        }
        let off = draw(rng, 0, size - WINDOW_ALIGN);
        let start = base + off;
        proof {
            lemma_floor_multiple(start as int, n as int, 0);
        }
        let addr = start / n * n;
        proof {
            lemma_placed_in_window(base as int, size as int, off as int, n as int, burst, beats as int);
        }
        let mut data: Vec<u32> = Vec::new();
        let mut w_user: Vec<u8> = Vec::new();
        let mut i: u32 = 0;
        while i < WRITE_SLOTS
            invariant
                i <= WRITE_SLOTS,
                data@.len() == i,
                w_user@.len() == i,
            decreases WRITE_SLOTS - i,
        {
            data.push(draw(rng, 0, u32::MAX));
            w_user.push(draw(rng, 0, 255) as u8);
            i += 1;
        }
        let aw_user = draw(rng, 0, 255) as u8;
        Self::from_parts(id, burst, beats, beat_size, addr, data, w_user, aw_user, bus)
    }
}

impl AxiReadPayload {
    /// A read request of random fields, marked valid. The model sends it with
    /// `valid` cleared to fill an idle read slot.
    pub fn random(rng: &mut StdRng) -> (r: Self)
        ensures
            r.valid == 1,
            r.burst <= 15,
            r.cache <= 15,
            r.lock <= 1,
            r.prot <= 7,
            r.qos <= 15,
            r.region <= 15,
            r.size <= 15,
            r.addr <= 255,
    {
        AxiReadPayload {
            addr: draw(rng, 0, 255),
            id: draw(rng, 0, 255) as u8,
            user: draw(rng, 0, 255) as u8,
            burst: draw(rng, 0, 15) as u8,
            cache: draw(rng, 0, 15) as u8,
            len: draw(rng, 0, 255) as u8,
            lock: draw(rng, 0, 1) as u8,
            prot: draw(rng, 0, 7) as u8,
            qos: draw(rng, 0, 15) as u8,
            region: draw(rng, 0, 15) as u8,
            size: draw(rng, 0, 15) as u8,
            valid: 1,
        }
    }
}

} // verus!
