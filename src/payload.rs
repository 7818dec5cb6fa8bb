//! Write and read request payloads, their mathematical view, and what makes
//! a write payload legal for a bus of a given width.

use vstd::prelude::*;
use vstd::arithmetic::power2::pow2;
use crate::burst::{
    beat_address, beat_bytes, burst_in_window, legal_wrap_beats, BURST_WRAP,
};

verus! {

/// A bus width in bytes that the model drives: 8, 16 or 32 data bits.
pub open spec fn valid_bus(bus: int) -> bool {
    bus == 1 || bus == 2 || bus == 4
}

/// `n` low lanes enabled, for a beat of `n` bytes.
pub open spec fn low_lanes(n: u8) -> u8 {
    if n == 1 {
        1
    } else if n == 2 {
        3
    } else if n == 4 {
        15
    } else {
        0
    }
}

/// The strobe of a beat of `n` bytes whose first byte sits on lane `off`.
pub open spec fn lane_mask(off: u8, n: u8) -> u8 {
    low_lanes(n) << off
}

/// The number of set bits of a strobe byte.
pub open spec fn popcount(x: u8) -> u8 {
    ((x & 1) + ((x >> 1u8) & 1) + ((x >> 2u8) & 1) + ((x >> 3u8) & 1) + ((x >> 4u8) & 1) + ((
    x >> 5u8) & 1) + ((x >> 6u8) & 1) + ((x >> 7u8) & 1)) as u8
}

/// Whether lane `i` is enabled in strobe `s`.
pub open spec fn lane_on(s: u8, i: int) -> bool {
    (s >> (i as u8)) & 1 == 1
}

/// Byte `lane` (little-endian) of a data word.
pub open spec fn lane_byte(word: u32, lane: int) -> u8 {
    ((word >> ((8 * lane) as u32)) & 0xff) as u8
}

/// What a write payload holds, as mathematical values.
pub struct WriteBurst {
    pub id: u8,
    pub len: u8,
    pub addr: u32,
    pub data: Seq<u32>,
    pub strb: Seq<u8>,
    pub w_user: Seq<u8>,
    pub aw_user: u8,
    pub data_valid: u8,
    pub burst: u8,
    pub cache: u8,
    pub lock: u8,
    pub prot: u8,
    pub qos: u8,
    pub region: u8,
    pub size: u8,
}

impl WriteBurst {
    /// Number of beats: the length field counts beats minus one.
    pub open spec fn beats(self) -> int {
        self.len + 1
    }

    /// Bytes per beat.
    pub open spec fn n(self) -> int {
        beat_bytes(self.size) as int
    }

    /// Address of beat `k`.
    pub open spec fn beat_addr(self, k: int) -> int {
        beat_address(self.addr as int, self.n(), self.burst, self.beats(), k as nat)
    }

    /// Lane of the first byte of beat `k` on a bus of `bus` bytes.
    pub open spec fn beat_lane(self, k: int, bus: int) -> int {
        self.beat_addr(k) % bus
    }

    /// Address of lane 0 of the bus word that carries beat `k`.
    pub open spec fn lane_base(self, k: int, bus: int) -> int {
        self.beat_addr(k) - self.beat_lane(k, bus)
    }

    /// The byte address that lane `i` of beat `k` writes: lanes follow the
    /// bus word, so lane `i` stands for `lane_base(k) + i`.
    pub open spec fn lane_addr(self, k: int, i: int, bus: int) -> int {
        self.lane_base(k, bus) + i
    }

    /// The strobe of beat `k` is empty, or enables as many lanes as the beat
    /// has bytes, all of them lanes of the bus.
    pub open spec fn strobe_ok(self, k: int, bus: int) -> bool {
        self.strb[k] == 0 || (popcount(self.strb[k]) as int == self.n() && (self.strb[k] as int)
            < pow2(bus as nat))
    }

    /// A legal write request for a bus of `bus` bytes: known burst type, a
    /// beat no wider than the bus, an address aligned to the beat size, a
    /// wrap length of 2, 4, 8 or 16 beats, one data word and one strobe per
    /// beat, and strobes that are empty or enable `2^size` lanes of the bus.
    pub open spec fn wf(self, bus: int) -> bool {
        &&& valid_bus(bus)
        &&& self.burst <= BURST_WRAP
        &&& self.size <= 2
        &&& self.n() <= bus
        &&& self.addr as int % self.n() == 0
        &&& self.burst == BURST_WRAP ==> legal_wrap_beats(self.beats())
        &&& self.data.len() >= self.beats()
        &&& self.strb.len() >= self.beats()
        &&& forall|k: int| 0 <= k < self.beats() ==> #[trigger] self.strobe_ok(k, bus)
    }

    /// Every beat's bytes lie in the window `[base, base + len)`.
    pub open spec fn in_window(self, base: int, len: int) -> bool {
        burst_in_window(self.addr as int, self.n(), self.burst, self.beats(), base, len)
    }
}

/// A write request: address phase, one data word, strobe and user byte per
/// beat, and fixed attributes.
#[derive(Clone, Debug)]
pub struct AxiWritePayload {
    pub id: u8,
    pub len: u8,
    pub addr: u32,
    pub data: Vec<u32>,
    pub strb: Vec<u8>,
    pub w_user: Vec<u8>,
    pub aw_user: u8,
    pub data_valid: u8,
    pub burst: u8,
    pub cache: u8,
    pub lock: u8,
    pub prot: u8,
    pub qos: u8,
    pub region: u8,
    pub size: u8,
}

impl View for AxiWritePayload {
    type V = WriteBurst;

    open spec fn view(&self) -> WriteBurst {
        WriteBurst {
            id: self.id,
            len: self.len,
            addr: self.addr,
            data: self.data@,
            strb: self.strb@,
            w_user: self.w_user@,
            aw_user: self.aw_user,
            data_valid: self.data_valid,
            burst: self.burst,
            cache: self.cache,
            lock: self.lock,
            prot: self.prot,
            qos: self.qos,
            region: self.region,
            size: self.size,
        }
    }
}

impl AxiWritePayload {
    /// A copy of this payload.
    pub fn duplicate(&self) -> (r: Self)
        ensures
            r@ == self@,
    {
        let r = AxiWritePayload {
            id: self.id,
            len: self.len,
            addr: self.addr,
            data: self.data.clone(),
            strb: self.strb.clone(),
            w_user: self.w_user.clone(),
            aw_user: self.aw_user,
            data_valid: self.data_valid,
            burst: self.burst,
            cache: self.cache,
            lock: self.lock,
            prot: self.prot,
            qos: self.qos,
            region: self.region,
            size: self.size,
        };
        assert(r.data@ =~= self.data@);
        assert(r.strb@ =~= self.strb@);
        assert(r.w_user@ =~= self.w_user@);
        r
    }
}

/// A read request. `valid == 0` marks an idle cycle that carries no request.
#[derive(Clone, Copy, Debug, PartialEq, Eq, Structural)]
pub struct AxiReadPayload {
    pub addr: u32,
    pub id: u8,
    pub user: u8,
    pub burst: u8,
    pub cache: u8,
    pub len: u8,
    pub lock: u8,
    pub prot: u8,
    pub qos: u8,
    pub region: u8,
    pub size: u8,
    pub valid: u8,
}

/// The read request that reads back the region a write request wrote.
pub open spec fn read_of(w: WriteBurst) -> AxiReadPayload {
    AxiReadPayload {
        addr: w.addr,
        id: w.id,
        user: w.aw_user,
        burst: w.burst,
        cache: w.cache,
        len: w.len,
        lock: w.lock,
        prot: w.prot,
        qos: w.qos,
        region: w.region,
        size: w.size,
        valid: 1,
    }
}

impl AxiReadPayload {
    /// The valid read request for the region that `payload` wrote, with the
    /// same id, burst, size, length and attributes.
    pub fn from_write_payload(payload: &AxiWritePayload) -> (r: Self)
        ensures
            r == read_of(payload@),
    {
        AxiReadPayload {
            addr: payload.addr,
            id: payload.id,
            user: payload.aw_user,
            burst: payload.burst,
            cache: payload.cache,
            len: payload.len,
            lock: payload.lock,
            prot: payload.prot,
            qos: payload.qos,
            region: payload.region,
            size: payload.size,
            valid: 1,
        }
    }
}

/// On a bus of `bus` bytes, a beat of `n` bytes at an address that is a
/// multiple of `n` fits in the lanes that follow its first lane.
pub proof fn lemma_lane_fits(cur: int, n: int, bus: int)
    requires
        cur % n == 0,
        n == 1 || n == 2 || n == 4,
        bus == 1 || bus == 2 || bus == 4,
        n <= bus,
    ensures
        cur % bus + n <= bus,
{
    if n == 2 && bus == 4 {
        vstd::arithmetic::div_mod::lemma_mod_mod(cur, 2, 2);
        let r = cur % 4;
        assert(0 <= r < 4 && r % 2 == 0 ==> r <= 2);
    } else if n == bus {
        assert(cur % bus == 0);
    }
}

/// The strobe that enables the lanes of a beat has as many bits set as the
/// beat has bytes, and no bit beyond the bus.
pub proof fn lemma_lane_mask_legal(off: u8, n: u8, bus: u8)
    requires
        n == 1 || n == 2 || n == 4,
        bus == 1 || bus == 2 || bus == 4,
        off + n <= bus,
    ensures
        popcount(lane_mask(off, n)) == n,
        (lane_mask(off, n) as int) < pow2(bus as nat),
{
    vstd::arithmetic::power2::lemma2_to64();
    assert(popcount(lane_mask(off, n)) == n && (bus == 1 ==> lane_mask(off, n) < 2) && (bus == 2
        ==> lane_mask(off, n) < 4) && (bus == 4 ==> lane_mask(off, n) < 16)) by (bit_vector)
        requires
            n == 1 || n == 2 || n == 4,
            bus == 1 || bus == 2 || bus == 4,
            off + n <= bus,
    ;
}

/// Every beat of a legal write request has an empty strobe or one with as
/// many bits set as the beat has bytes.
pub proof fn lemma_strobe_popcount(w: WriteBurst, bus: int, k: int)
    requires
        w.wf(bus),
        0 <= k < w.beats(),
    ensures
        w.strb[k] == 0 || popcount(w.strb[k]) == beat_bytes(w.size),
{
    assert(w.strobe_ok(k, bus));
}

} // verus!
