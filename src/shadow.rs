//! The shadow memory: the model's authoritative copy of a window of the
//! address space, written by write requests and read back for comparison.

use vstd::prelude::*;
use crate::burst::{
    beat_address, beat_bytes, burst_in_window, bytes_per_beat, legal_wrap_beats, next_beat_address,
    wrap_lower, wrap_upper, BURST_WRAP,
};
use crate::payload::{
    lane_byte, lane_on, valid_bus, AxiReadPayload, AxiWritePayload, WriteBurst,
};
use vstd::arithmetic::div_mod::lemma_fundamental_div_mod_converse;

verus! {

/// Base address of the window that `ShadowMem::new` covers.
pub const DEFAULT_MEM_BASE: u32 = 0xfc00_0000;

/// Size in bytes of the window that `ShadowMem::new` covers.
pub const DEFAULT_MEM_SIZE: u32 = 0x0400_0000;

/// Width in bytes of the bus that `ShadowMem::new` serves.
pub const DEFAULT_BUS_BYTES: u32 = 4;

/// The contents of the shadow memory: `bytes[i]` is the byte at address
/// `base + i`; `bus` is the data bus width in bytes.
pub struct MemImage {
    pub base: int,
    pub bytes: Seq<u8>,
    pub bus: int,
}

impl MemImage {
    /// The window lies inside the 32-bit address space, the bus width is one
    /// the model drives, and the window holds whole bus words.
    pub open spec fn wf(self) -> bool {
        &&& 0 <= self.base
        &&& self.base + self.bytes.len() <= 0x1_0000_0000
        &&& self.bytes.len() <= u32::MAX
        &&& valid_bus(self.bus)
        &&& self.base % self.bus == 0
        &&& self.bytes.len() as int % self.bus == 0
    }
}

/// Memory `m` after one beat on a bus of `bus` bytes whose lane 0 sits at
/// index `at`: each lane `i` enabled in `strobe` stores byte `i` of `word`
/// at index `at + i`; the other bytes stay.
pub open spec fn write_beat(m: Seq<u8>, at: int, bus: int, strobe: u8, word: u32) -> Seq<u8> {
    Seq::new(
        m.len(),
        |j: int|
            if at <= j < at + bus && lane_on(strobe, j - at) {
                lane_byte(word, j - at)
            } else {
                m[j]
            },
    )
}

/// Memory `m` (window at `base`, bus of `bus` bytes) after the first `k`
/// beats of `w`. A beat writes the lanes its strobe enables, each at the
/// address of that lane of the bus word that carries the beat; a beat with
/// an empty strobe writes nothing.
pub open spec fn write_beats(m: Seq<u8>, base: int, bus: int, w: WriteBurst, k: nat) -> Seq<u8>
    decreases k,
{
    if k == 0 {
        m
    } else {
        let j = (k - 1) as int;
        let prev = write_beats(m, base, bus, w, (k - 1) as nat);
        if w.strb[j] == 0 {
            prev
        } else {
            write_beat(prev, w.lane_base(j, bus) - base, bus, w.strb[j], w.data[j])
        }
    }
}

/// Writing beats keeps the size of the memory.
pub proof fn lemma_write_beats_len(m: Seq<u8>, base: int, bus: int, w: WriteBurst, k: nat)
    ensures
        write_beats(m, base, bus, w, k).len() == m.len(),
    decreases k,
{
    if k > 0 {
        lemma_write_beats_len(m, base, bus, w, (k - 1) as nat);
    }
}

/// The memory image after the whole of `w` has been written.
pub open spec fn written(m: MemImage, w: WriteBurst) -> MemImage {
    MemImage { bytes: write_beats(m.bytes, m.base, m.bus, w, w.beats() as nat), ..m }
}

/// The bytes a burst reads: `n` bytes at each beat address, beat after beat.
pub open spec fn burst_bytes(m: MemImage, addr: int, n: int, burst: u8, beats: int) -> Seq<u8> {
    Seq::new(
        (beats * n) as nat,
        |i: int| m.bytes[beat_address(addr, n, burst, beats, (i / n) as nat) + i % n - m.base],
    )
}

/// The bytes the read request `r` reads from `m`.
pub open spec fn read_bytes(m: MemImage, r: AxiReadPayload) -> Seq<u8> {
    burst_bytes(m, r.addr as int, beat_bytes(r.size) as int, r.burst, r.len + 1)
}

/// A read request the memory can serve: a known burst type, a size no wider
/// than the bus, an aligned address, a legal wrap length, and every beat in
/// the window.
pub open spec fn read_ok(m: MemImage, r: AxiReadPayload) -> bool {
    &&& r.burst <= BURST_WRAP
    &&& r.size <= 2
    &&& beat_bytes(r.size) <= m.bus
    &&& r.addr as int % beat_bytes(r.size) as int == 0
    &&& r.burst == BURST_WRAP ==> legal_wrap_beats(r.len + 1)
    &&& burst_in_window(
        r.addr as int,
        beat_bytes(r.size) as int,
        r.burst,
        r.len + 1,
        m.base,
        m.bytes.len() as int,
    )
}

/// Returns byte `lane` of `word`.
pub fn word_lane(word: u32, lane: u32) -> (b: u8)
    requires
        lane < 4,
    ensures
        b == lane_byte(word, lane as int),
{
    ((word >> (8 * lane)) & 0xff) as u8
}

/// The byte-addressed shadow copy of a window of memory.
pub struct ShadowMem {
    base: u32,
    bus: u32,
    mem: Vec<u8>,
}

impl View for ShadowMem {
    type V = MemImage;

    closed spec fn view(&self) -> MemImage {
        MemImage { base: self.base as int, bytes: self.mem@, bus: self.bus as int }
    }
}

impl ShadowMem {
    /// A zeroed memory for the window `[base, base + size)` on a bus of
    /// `bus_bytes` bytes; the window holds whole bus words.
    pub fn with_window(base: u32, size: u32, bus_bytes: u32) -> (r: Self)
        requires
            base + size <= 0x1_0000_0000,
            valid_bus(bus_bytes as int),
            base % bus_bytes == 0,
            size % bus_bytes == 0,
        ensures
            r@.wf(),
            r@.base == base,
            r@.bus == bus_bytes,
            r@.bytes.len() == size,
            forall|i: int| 0 <= i < size ==> r@.bytes[i] == 0,
    {
        let mem: Vec<u8> = vec![0u8; size as usize];
        ShadowMem { base, bus: bus_bytes, mem }
    }

    /// A zeroed memory for the default window on a 32-bit bus.
    pub fn new() -> (r: Self)
        ensures
            r@.wf(),
            r@.base == DEFAULT_MEM_BASE,
            r@.bus == DEFAULT_BUS_BYTES,
            r@.bytes.len() == DEFAULT_MEM_SIZE,
            forall|i: int| 0 <= i < DEFAULT_MEM_SIZE ==> r@.bytes[i] == 0,
    {
        Self::with_window(DEFAULT_MEM_BASE, DEFAULT_MEM_SIZE, DEFAULT_BUS_BYTES)
    }

    /// Width of the data bus in bytes.
    pub fn bus_bytes(&self) -> (r: u32)
        ensures
            r == self@.bus,
    {
        self.bus
    }

    /// First address of the window.
    pub fn base(&self) -> (r: u32)
        ensures
            r == self@.base,
    {
        self.base
    }

    /// Size of the window in bytes.
    pub fn size(&self) -> (r: u32)
        requires
            self@.wf(),
        ensures
            r == self@.bytes.len(),
    {
        self.mem.len() as u32
    }

    /// The byte at `addr`.
    pub fn byte_at(&self, addr: u32) -> (r: u8)
        requires
            self@.wf(),
            self@.base <= addr < self@.base + self@.bytes.len(),
        ensures
            r == self@.bytes[addr - self@.base],
    {
        self.mem[(addr - self.base) as usize]
    }

    /// Whether `addr` is a multiple of `2^size`.
    pub fn is_addr_align(&self, addr: u32, size: u8) -> (r: bool)
        requires
            size <= 7,
        ensures
            r == (addr as int % beat_bytes(size) as int == 0),
    {
        let bytes_number = bytes_per_beat(size);
        addr % bytes_number == 0
    }

    /// The `size` bytes at `addr`.
    pub fn read_mem(&self, addr: u32, size: u32) -> (r: &[u8])
        requires
            self@.wf(),
            self@.base <= addr,
            addr + size <= self@.base + self@.bytes.len(),
        ensures
            r@ == self@.bytes.subrange(addr - self@.base, addr - self@.base + size),
    {
        let start = (addr - self.base) as usize;
        vstd::slice::slice_subrange(self.mem.as_slice(), start, start + size as usize)
    }

    /// The bytes `payload` reads: `2^size` bytes at each beat address, beat
    /// after beat.
    pub fn read_mem_axi(&self, payload: AxiReadPayload) -> (r: Vec<u8>)
        requires
            self@.wf(),
            read_ok(self@, payload),
        ensures
            r@ == read_bytes(self@, payload),
    {
        let ghost m = self@;
        let ghost addr = payload.addr as int;
        let n = bytes_per_beat(payload.size) as u64;
        let beats: u64 = payload.len as u64 + 1;
        assert(n * beats <= 4 * 256) by (nonlinear_arith)
            requires
                n <= 4,
                beats <= 256,
        ;
        let span: u64 = n * beats;
        proof {
            crate::burst::lemma_span_floor(payload.addr as int, n as int, beats as int);
        }
        let lower: u64 = payload.addr as u64 / span * span;
        let upper: u64 = lower + span;
        let mut data: Vec<u8> = Vec::new();
        let mut cur: u64 = payload.addr as u64;
        let mut k: u64 = 0;
        while k < beats
            invariant
                self@ == m,
                m.wf(),
                read_ok(m, payload),
                addr == payload.addr,
                n == beat_bytes(payload.size),
                1 <= n <= 4,
                beats == payload.len + 1,
                span == n * beats,
                lower == wrap_lower(addr, n as int, beats as int),
                upper == wrap_upper(addr, n as int, beats as int),
                k <= beats,
                cur == beat_address(addr, n as int, payload.burst, beats as int, k as nat),
                data@.len() == k * n,
                forall|i: int|
                    0 <= i < k * n ==> #[trigger] data@[i] == m.bytes[beat_address(
                        addr,
                        n as int,
                        payload.burst,
                        beats as int,
                        (i / n as int) as nat,
                    ) + i % n as int - m.base],
            decreases beats - k,
        {
            assert(m.base <= cur && cur + n <= m.base + m.bytes.len()) by {
                assert(k < beats);
                let kk = k as nat;
                assert(kk < beats);
            }
            let chunk = self.read_mem(cur as u32, n as u32);
            data.extend_from_slice(chunk);
            assert forall|i: int| 0 <= i < (k + 1) * n implies #[trigger] data@[i] == m.bytes[beat_address(
                addr,
                n as int,
                payload.burst,
                beats as int,
                (i / n as int) as nat,
            ) + i % n as int - m.base] by {
                assert((k + 1) * n == k * n + n) by (nonlinear_arith);
                if i >= k * n {
                    lemma_fundamental_div_mod_converse(i, n as int, k as int, i - k * n);
                }
            }
            assert((k + 1) * n == k * n + n) by (nonlinear_arith);
            cur = next_beat_address(cur, n, payload.burst, lower, upper);
            k += 1;
        }
        assert(data@ =~= read_bytes(m, payload));
        data
    }

    /// Writes `payload`: for each beat, every lane its strobe enables stores
    /// that byte of the beat's data word at the lane's address, the address
    /// of the bus word that carries the beat plus the lane number. A beat
    /// with an empty strobe writes nothing.
    pub fn write_mem_axi(&mut self, payload: AxiWritePayload)
        requires
            old(self)@.wf(),
            payload@.wf(old(self)@.bus),
            payload@.in_window(old(self)@.base, old(self)@.bytes.len() as int),
        ensures
            final(self)@ == written(old(self)@, payload@),
    {
        let ghost m = self@;
        let ghost w = payload@;
        let ghost addr = payload.addr as int;
        let bus = self.bus as u64;
        let base = self.base as u64;
        let n = bytes_per_beat(payload.size) as u64;
        let beats: u64 = payload.len as u64 + 1;
        assert(n * beats <= 4 * 256) by (nonlinear_arith)
            requires
                n <= 4,
                beats <= 256,
        ;
        let span: u64 = n * beats;
        proof {
            crate::burst::lemma_span_floor(payload.addr as int, n as int, beats as int);
        }
        let lower: u64 = payload.addr as u64 / span * span;
        let upper: u64 = lower + span;
        let mut cur: u64 = payload.addr as u64;
        let mut k: u64 = 0;
        while k < beats
            invariant
                self.base == m.base,
                self.bus == m.bus,
                bus == m.bus,
                base == m.base,
                m.wf(),
                w == payload@,
                w.wf(m.bus),
                w.in_window(m.base, m.bytes.len() as int),
                addr == payload.addr,
                n == w.n(),
                beats == w.beats(),
                span == n * beats,
                lower == wrap_lower(addr, n as int, beats as int),
                upper == wrap_upper(addr, n as int, beats as int),
                k <= beats,
                k < beats ==> cur == w.beat_addr(k as int),
                self.mem@ == write_beats(m.bytes, m.base, m.bus, w, k as nat),
            decreases beats - k,
        {
            proof {
                lemma_write_beats_len(m.bytes, m.base, m.bus, w, k as nat);
                lemma_lane_word_in_window(m, w, k as int);
            }
            let s = payload.strb[k as usize];
            if s != 0 {
                let start = (cur - cur % bus - base) as usize;
                let word = payload.data[k as usize];
                let ghost prev = self.mem@;
                let mut i: u64 = 0;
                while i < bus
                    invariant
                        self.base == m.base,
                        self.bus == m.bus,
                        prev.len() == m.bytes.len(),
                        start + bus <= prev.len(),
                        prev.len() <= u32::MAX,
                        bus <= 4,
                        i <= bus,
                        self.mem@.len() == prev.len(),
                        forall|j: int|
                            0 <= j < prev.len() ==> #[trigger] self.mem@[j] == if start <= j < start
                                + i && lane_on(s, j - start) {
                                lane_byte(word, j - start)
                            } else {
                                prev[j]
                            },
                    decreases bus - i,
                {
                    if (s >> (i as u8)) & 1 == 1 {
                        let b = word_lane(word, i as u32);
                        self.mem.set(start + i as usize, b);
                    }
                    i += 1;
                }
                assert(self.mem@ =~= write_beat(prev, start as int, bus as int, s, word));
            }
            if k + 1 < beats {
                cur = next_beat_address(cur, n, payload.burst, lower, upper);
            }
            k += 1;
        }
        assert(self@ =~= written(m, w)) by {
            assert(self.mem@ == written(m, w).bytes);
        }
    }
}

/// The bus word that carries beat `k` of a write inside the window lies in
/// the window too: the window holds whole bus words.
pub proof fn lemma_lane_word_in_window(m: MemImage, w: WriteBurst, k: int)
    requires
        m.wf(),
        w.wf(m.bus),
        w.in_window(m.base, m.bytes.len() as int),
        0 <= k < w.beats(),
    ensures
        m.base <= w.lane_base(k, m.bus),
        w.lane_base(k, m.bus) + m.bus <= m.base + m.bytes.len(),
        w.beat_addr(k) < 0x1_0000_0000,
{
    vstd::arithmetic::power2::lemma2_to64();
    let kk = k as nat;
    assert(kk < w.beats());
    let a = w.beat_addr(k);
    let bus = m.bus;
    vstd::arithmetic::div_mod::lemma_fundamental_div_mod(a, bus);
    let lb = w.lane_base(k, bus);
    assert(lb == bus * (a / bus));
    vstd::arithmetic::mul::lemma_mul_is_commutative(bus, a / bus);
    vstd::arithmetic::div_mod::lemma_mod_multiples_basic(a / bus, bus);
    let end = m.base + m.bytes.len();
    vstd::arithmetic::div_mod::lemma_mod_adds(m.base, m.bytes.len() as int, bus);
    if lb < m.base {
        crate::burst::lemma_multiple_step(lb, m.base, bus);
    }
    crate::burst::lemma_multiple_step(lb, end, bus);
}

/// A write whose every beat has an empty strobe leaves memory unchanged.
pub proof fn lemma_zero_strobes_keep_memory(m: MemImage, w: WriteBurst)
    requires
        forall|k: int| 0 <= k < w.beats() ==> #[trigger] w.strb[k] == 0,
    ensures
        written(m, w) == m,
{
    lemma_zero_strobe_prefix(m.bytes, m.base, m.bus, w, w.beats() as nat);
    assert(written(m, w) =~= m);
}

proof fn lemma_zero_strobe_prefix(m: Seq<u8>, base: int, bus: int, w: WriteBurst, k: nat)
    requires
        k <= w.beats(),
        forall|j: int| 0 <= j < w.beats() ==> #[trigger] w.strb[j] == 0,
    ensures
        write_beats(m, base, bus, w, k) == m,
    decreases k,
{
    if k > 0 {
        lemma_zero_strobe_prefix(m, base, bus, w, (k - 1) as nat);
        assert(w.strb[k - 1] == 0);
    }
}

/// Lane `i` of beat `k` of `w`, on a bus of `bus` bytes, writes address `a`.
pub open spec fn writes_at(w: WriteBurst, bus: int, k: int, i: int, a: int) -> bool {
    &&& 0 <= k < w.beats()
    &&& 0 <= i < bus
    &&& lane_on(w.strb[k], i)
    &&& w.lane_addr(k, i, bus) == a
}

/// No lane of any beat of `w` writes address `a`.
pub open spec fn untouched(w: WriteBurst, bus: int, a: int) -> bool {
    forall|k: int, i: int| !#[trigger] writes_at(w, bus, k, i, a)
}

/// Lane `i` of beat `k` writes address `a`, and no later beat of `w` does.
pub open spec fn last_in_burst(w: WriteBurst, bus: int, k: int, i: int, a: int) -> bool {
    &&& writes_at(w, bus, k, i, a)
    &&& forall|k2: int, i2: int| k < k2 ==> !#[trigger] writes_at(w, bus, k2, i2, a)
}

/// The memory after the writes of `ws`, one after the other.
pub open spec fn written_all(m: MemImage, ws: Seq<WriteBurst>) -> MemImage
    decreases ws.len(),
{
    if ws.len() == 0 {
        m
    } else {
        written(written_all(m, ws.drop_last()), ws.last())
    }
}

proof fn lemma_no_lane_of_empty_strobe(i: int)
    requires
        0 <= i < 8,
    ensures
        !lane_on(0, i),
{
    let j = i as u8;
    assert((0u8 >> j) & 1 == 0) by (bit_vector);
}

proof fn lemma_untouched_prefix(m: Seq<u8>, base: int, bus: int, w: WriteBurst, a: int, upto: nat)
    requires
        valid_bus(bus),
        upto <= w.beats(),
        untouched(w, bus, a),
        base <= a < base + m.len(),
    ensures
        write_beats(m, base, bus, w, upto)[a - base] == m[a - base],
    decreases upto,
{
    if upto > 0 {
        lemma_untouched_prefix(m, base, bus, w, a, (upto - 1) as nat);
        lemma_write_beats_len(m, base, bus, w, (upto - 1) as nat);
        let j = upto - 1;
        let at = w.lane_base(j, bus) - base;
        if at <= a - base < at + bus && lane_on(w.strb[j], a - base - at) {
            assert(writes_at(w, bus, j, a - base - at, a));
        }
    }
}

proof fn lemma_last_write_prefix(
    m: Seq<u8>,
    base: int,
    bus: int,
    w: WriteBurst,
    k: int,
    i: int,
    a: int,
    upto: nat,
)
    requires
        valid_bus(bus),
        0 <= k < upto <= w.beats(),
        last_in_burst(w, bus, k, i, a),
        base <= a < base + m.len(),
    ensures
        write_beats(m, base, bus, w, upto)[a - base] == lane_byte(w.data[k], i),
    decreases upto,
{
    lemma_write_beats_len(m, base, bus, w, (upto - 1) as nat);
    let j = upto - 1;
    if upto > k + 1 {
        lemma_last_write_prefix(m, base, bus, w, k, i, a, (upto - 1) as nat);
        let at = w.lane_base(j, bus) - base;
        if at <= a - base < at + bus && lane_on(w.strb[j], a - base - at) {
            assert(writes_at(w, bus, j, a - base - at, a));
        }
    } else {
        if w.strb[k] == 0 {
            lemma_no_lane_of_empty_strobe(i);
        }
    }
}

/// After a write, an address holds the byte of the last lane of the write
/// that stores there.
pub proof fn lemma_last_write_wins(m: MemImage, w: WriteBurst, k: int, i: int)
    requires
        m.wf(),
        last_in_burst(w, m.bus, k, i, w.lane_addr(k, i, m.bus)),
        m.base <= w.lane_addr(k, i, m.bus) < m.base + m.bytes.len(),
    ensures
        written(m, w).bytes[w.lane_addr(k, i, m.bus) - m.base] == lane_byte(w.data[k], i),
{
    lemma_last_write_prefix(
        m.bytes,
        m.base,
        m.bus,
        w,
        k,
        i,
        w.lane_addr(k, i, m.bus),
        w.beats() as nat,
    );
}

/// A write that stores nothing at an address leaves its byte as it was.
pub proof fn lemma_untouched_stays(m: MemImage, w: WriteBurst, a: int)
    requires
        m.wf(),
        untouched(w, m.bus, a),
        m.base <= a < m.base + m.bytes.len(),
    ensures
        written(m, w).bytes[a - m.base] == m.bytes[a - m.base],
{
    lemma_untouched_prefix(m.bytes, m.base, m.bus, w, a, w.beats() as nat);
}

/// Writes keep the window and the bus of the memory.
pub proof fn lemma_written_all_frame(m: MemImage, ws: Seq<WriteBurst>)
    ensures
        written_all(m, ws).base == m.base,
        written_all(m, ws).bus == m.bus,
        written_all(m, ws).bytes.len() == m.bytes.len(),
        m.wf() ==> written_all(m, ws).wf(),
    decreases ws.len(),
{
    if ws.len() > 0 {
        lemma_written_all_frame(m, ws.drop_last());
        let prev = written_all(m, ws.drop_last());
        lemma_write_beats_len(prev.bytes, prev.base, prev.bus, ws.last(), ws.last().beats() as nat);
    }
}

/// Round trip over a run of writes: after the writes `ws`, one after the
/// other, the byte at the address of lane `i` of beat `k` of write `j` is
/// the byte that lane stored, as long as it is the last lane of write `j`
/// to store there and no later write stores there. So a read-back of write
/// `j`, restricted to the lanes its strobes enabled, must return the bytes
/// most recently written to them.
pub proof fn lemma_round_trip(m: MemImage, ws: Seq<WriteBurst>, j: int, k: int, i: int)
    requires
        m.wf(),
        0 <= j < ws.len(),
        last_in_burst(ws[j], m.bus, k, i, ws[j].lane_addr(k, i, m.bus)),
        forall|j2: int|
            j < j2 < ws.len() ==> untouched(#[trigger] ws[j2], m.bus, ws[j].lane_addr(k, i, m.bus)),
        m.base <= ws[j].lane_addr(k, i, m.bus) < m.base + m.bytes.len(),
    ensures
        written_all(m, ws).bytes[ws[j].lane_addr(k, i, m.bus) - m.base] == lane_byte(
            ws[j].data[k],
            i,
        ),
    decreases ws.len(),
{
    let a = ws[j].lane_addr(k, i, m.bus);
    let prev = written_all(m, ws.drop_last());
    lemma_written_all_frame(m, ws.drop_last());
    if j == ws.len() - 1 {
        lemma_last_write_wins(prev, ws.last(), k, i);
    } else {
        assert(ws.drop_last()[j] == ws[j]);
        assert forall|j2: int| j < j2 < ws.drop_last().len() implies untouched(
            #[trigger] ws.drop_last()[j2],
            m.bus,
            a,
        ) by {
            assert(ws.drop_last()[j2] == ws[j2]);
        }
        lemma_round_trip(m, ws.drop_last(), j, k, i);
        assert(untouched(ws[ws.len() - 1], m.bus, a));
        lemma_untouched_stays(prev, ws.last(), a);
    }
}

} // verus!
