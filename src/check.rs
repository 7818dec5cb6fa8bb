//! The comparator: what a completed read must return, and the faults that a
//! completion event raises when it does not.

use vstd::prelude::*;
use crate::burst::{bytes_per_beat, next_beat_address, wrap_lower, wrap_upper};
use crate::payload::{lane_byte, lane_on, AxiWritePayload, WriteBurst};
use crate::shadow::{lemma_lane_word_in_window, word_lane, MemImage, ShadowMem};

verus! {

/// A data-integrity fault found by the model.
#[derive(Clone, Copy, Debug, PartialEq, Eq, Structural)]
pub enum Fault {
    /// A write response carried another id than the oldest issued write.
    WriteIdMismatch { expected: u8, actual: u8 },
    /// A read completion did not flag its last beat.
    ReadLastMissing { last: u8 },
    /// A read completion carried another id than the outstanding read.
    ReadIdMismatch { expected: u8, actual: u8 },
    /// A read completion reported another beat count than the read has.
    ReadLengthMismatch { expected_beats: u32, reported_beats: u32 },
    /// A read completion carried fewer data words than the read has beats.
    ReadDataShort { expected_beats: u32, reported_words: u32 },
    /// The first enabled lane of a read completion that differs from shadow
    /// memory: lane `lane` of beat `beat`.
    ReadDataMismatch { beat: u32, lane: u32, expected_byte: u8, actual_byte: u8 },
}

/// Lane `i` of beat `k` of the data `rdata` returned for the read-back of
/// `w` agrees with shadow memory `m` at that lane's address, or the lane was
/// not enabled by the beat's strobe and is not compared.
pub open spec fn byte_matches(w: WriteBurst, m: MemImage, rdata: Seq<u32>, k: int, i: int) -> bool {
    !lane_on(w.strb[k], i) || lane_byte(rdata[k], i) == m.bytes[w.lane_addr(k, i, m.bus) - m.base]
}

/// Every compared lane before lane `i` of beat `k` agrees.
pub open spec fn matches_before(w: WriteBurst, m: MemImage, rdata: Seq<u32>, k: int, i: int) -> bool {
    forall|k2: int, i2: int|
        0 <= k2 < w.beats() && 0 <= i2 < m.bus && (k2 < k || (k2 == k && i2 < i))
            ==> #[trigger] byte_matches(w, m, rdata, k2, i2)
}

/// The returned data agrees with shadow memory on every lane the write's
/// strobes enabled.
pub open spec fn data_agrees(w: WriteBurst, m: MemImage, rdata: Seq<u32>) -> bool {
    rdata.len() >= w.beats() && matches_before(w, m, rdata, w.beats(), 0)
}

/// `f` is the fault the data check reports: too few words, or the first
/// enabled lane that disagrees.
pub open spec fn is_data_fault(f: Fault, w: WriteBurst, m: MemImage, rdata: Seq<u32>) -> bool {
    if rdata.len() < w.beats() {
        f == Fault::ReadDataShort {
            expected_beats: w.beats() as u32,
            reported_words: rdata.len() as u32,
        }
    } else {
        f matches Fault::ReadDataMismatch { beat, lane, expected_byte: e, actual_byte: a } && {
            let k = beat as int;
            let i = lane as int;
            &&& 0 <= k < w.beats()
            &&& 0 <= i < m.bus
            &&& !byte_matches(w, m, rdata, k, i)
            &&& matches_before(w, m, rdata, k, i)
            &&& e == m.bytes[w.lane_addr(k, i, m.bus) - m.base]
            &&& a == lane_byte(rdata[k], i)
        }
    }
}

/// Compares the data words `rdata` returned for the read-back of `payload`
/// with shadow memory: for each beat, each lane its strobe enabled must
/// carry the byte shadow memory holds at that lane's address. Returns `None`
/// when they all agree, else the fault: too few words, or the first enabled
/// lane that differs.
pub fn compare_read_data(payload: &AxiWritePayload, mem: &ShadowMem, rdata: &Vec<u32>) -> (r: Option<
    Fault,
>)
    requires
        mem@.wf(),
        payload@.wf(mem@.bus),
        payload@.in_window(mem@.base, mem@.bytes.len() as int),
    ensures
        r is None <==> data_agrees(payload@, mem@, rdata@),
        r matches Some(f) ==> is_data_fault(f, payload@, mem@, rdata@),
{
    let ghost w = payload@;
    let ghost m = mem@;
    let bus = mem.bus_bytes() as u64;
    let n = bytes_per_beat(payload.size) as u64;
    let beats: u64 = payload.len as u64 + 1;
    if (rdata.len() as u64) < beats {
        return Some(
            Fault::ReadDataShort { expected_beats: beats as u32, reported_words: rdata.len() as u32 },
        );
    }
    assert(n * beats <= 4 * 256) by (nonlinear_arith)
        requires
            n <= 4,
            beats <= 256,
    ;
    let span: u64 = n * beats;
    proof {
        crate::burst::lemma_span_floor(payload.addr as int, n as int, beats as int);
    }
    let lower: u64 = payload.addr as u64 / span * span;
    let upper: u64 = lower + span;
    let base = mem.base() as u64;
    let mut cur: u64 = payload.addr as u64;
    let mut k: u64 = 0;
    while k < beats
        invariant
            w == payload@,
            m == mem@,
            m.wf(),
            w.wf(m.bus),
            w.in_window(m.base, m.bytes.len() as int),
            rdata@.len() >= beats,
            n == w.n(),
            beats == w.beats(),
            bus == m.bus,
            base == m.base,
            span == n * beats,
            lower == wrap_lower(payload.addr as int, n as int, beats as int),
            upper == wrap_upper(payload.addr as int, n as int, beats as int),
            k <= beats,
            k < beats ==> cur == w.beat_addr(k as int),
            matches_before(w, m, rdata@, k as int, 0),
        decreases beats - k,
    {
        proof {
            lemma_lane_word_in_window(m, w, k as int);
        }
        let s = payload.strb[k as usize];
        let word = rdata[k as usize];
        let lane_base = cur - cur % bus;
        let mut i: u64 = 0;
        while i < bus
            invariant
                w == payload@,
                m == mem@,
                m.wf(),
                rdata@.len() >= beats,
                beats == w.beats(),
                bus == m.bus,
                bus <= 4,
                k < beats,
                lane_base == w.lane_base(k as int, bus as int),
                m.base <= lane_base,
                lane_base + bus <= m.base + m.bytes.len(),
                word == rdata@[k as int],
                s == w.strb[k as int],
                i <= bus,
                matches_before(w, m, rdata@, k as int, i as int),
            decreases bus - i,
        {
            if (s >> (i as u8)) & 1 == 1 {
                let got = word_lane(word, i as u32);
                let want = mem.byte_at((lane_base + i) as u32);
                if got != want {
                    let f = Fault::ReadDataMismatch {
                        beat: k as u32,
                        lane: i as u32,
                        expected_byte: want,
                        actual_byte: got,
                    };
                    proof {
                        assert(!byte_matches(w, m, rdata@, k as int, i as int));
                        lemma_no_clean_read(w, m, rdata@, k as int, i as int);
                    }
                    return Some(f);
                }
            }
            assert(byte_matches(w, m, rdata@, k as int, i as int));
            i += 1;
        }
        assert(matches_before(w, m, rdata@, k + 1, 0)) by {
            assert forall|k2: int, i2: int|
                0 <= k2 < w.beats() && 0 <= i2 < m.bus && (k2 < k + 1 || (k2 == k + 1 && i2 < 0))
                    implies #[trigger] byte_matches(w, m, rdata@, k2, i2) by {
                if k2 < k {
                    assert(k2 < k || (k2 == k && i2 < 0));
                } else {
                    assert(k2 == k && i2 < bus);
                }
            }
        }
        if k + 1 < beats {
            cur = next_beat_address(cur, n, payload.burst, lower, upper);
        }
        k += 1;
    }
    None
}

/// A lane that disagrees means the returned data does not agree.
proof fn lemma_no_clean_read(w: WriteBurst, m: MemImage, rdata: Seq<u32>, k: int, i: int)
    requires
        0 <= k < w.beats(),
        0 <= i < m.bus,
        !byte_matches(w, m, rdata, k, i),
    ensures
        !data_agrees(w, m, rdata),
{
    if data_agrees(w, m, rdata) {
        assert(k < w.beats() || (k == w.beats() && i < 0));
        assert(byte_matches(w, m, rdata, k, i));
    }
}

} // verus!
