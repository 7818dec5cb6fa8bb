//! The model instance: the transaction tracker with its three in-order
//! queues, the checks made on each completion event, the statistics and the
//! watchdog that decides when the simulation stops.

use std::collections::VecDeque;
use rand::rngs::StdRng;
use vstd::prelude::*;
use crate::check::{compare_read_data, data_agrees, is_data_fault, Fault};
use crate::payload::{lane_mask, read_of, valid_bus, AxiReadPayload, AxiWritePayload, WriteBurst};
use crate::rng::seeded_rng;
use crate::shadow::{written, MemImage, ShadowMem};
use crate::stimulus::{lemma_window_base_divides, max_size, WINDOW_ALIGN, WRITE_SLOTS};
use crate::burst::{beat_bytes, BURST_FIXED};

verus! {

/// What the watchdog tells the simulator.
#[derive(Clone, Copy, Debug, PartialEq, Eq, Structural)]
pub enum Verdict {
    Continue,
    Timeout,
    Finish,
}

/// The code of a verdict on the simulator side.
pub open spec fn verdict_code(v: Verdict) -> u8 {
    match v {
        Verdict::Continue => 0,
        Verdict::Timeout => 1,
        Verdict::Finish => 2,
    }
}

impl Verdict {
    /// 0 to continue, 1 on timeout, 2 to finish.
    pub fn code(&self) -> (r: u8)
        ensures
            r == verdict_code(*self),
    {
        match self {
            Verdict::Continue => 0,
            Verdict::Timeout => 1,
            Verdict::Finish => 2,
        }
    }
}

/// The result of one watchdog poll: the verdict, and whether the trace
/// capture is to start now.
#[derive(Clone, Copy, Debug, PartialEq, Eq, Structural)]
pub struct Poll {
    pub verdict: Verdict,
    pub start_dump: bool,
}

/// Transactions issued and completed on each channel.
#[derive(Clone, Copy, Debug, PartialEq, Eq, Structural)]
pub struct Stats {
    pub writes: u64,
    pub write_dones: u64,
    pub reads: u64,
    pub read_dones: u64,
}

/// The trace-capture window in ticks; an `end` of 0 means no end.
#[derive(Clone, Copy, Debug, PartialEq, Eq, Structural)]
pub struct TraceWindow {
    pub start: u64,
    pub end: u64,
}

/// What the model is built from.
#[derive(Clone, Copy, Debug)]
pub struct DriverConfig {
    /// Data bus width in bits: 8, 16 or 32.
    pub bus_width_bits: u32,
    /// The tick at which the watchdog times out.
    pub timeout: u64,
    /// The trace-capture window, if tracing is on.
    pub trace: Option<TraceWindow>,
    /// First address of the modelled memory window.
    pub mem_base: u32,
    /// Size in bytes of the modelled memory window.
    pub mem_size: u32,
    /// Seed of the stimulus generator.
    pub seed: u64,
}

/// A counter one step on, stopping at its largest value.
pub open spec fn bump(x: u64) -> u64 {
    if x == u64::MAX {
        x
    } else {
        (x + 1) as u64
    }
}

/// The views of the payloads of a queue.
pub open spec fn bursts(q: Seq<AxiWritePayload>) -> Seq<WriteBurst> {
    q.map_values(|p: AxiWritePayload| p@)
}

/// The model's state as mathematical values.
pub struct DriverState {
    pub bus: int,
    pub timeout: u64,
    pub trace: Option<TraceWindow>,
    pub dump_started: bool,
    pub manual_finish: bool,
    pub mem: MemImage,
    /// Writes issued and not yet acknowledged, oldest first.
    pub issued_writes: Seq<WriteBurst>,
    /// Acknowledged writes waiting to be read back, oldest first.
    pub awaiting_reads: Seq<WriteBurst>,
    /// Writes whose read-back is outstanding, oldest first.
    pub issued_reads: Seq<WriteBurst>,
    pub next_id: u8,
    pub stats: Stats,
    pub faults: Seq<Fault>,
}

impl DriverState {
    /// `w` is a legal write for this model: legal on its bus, inside its
    /// memory window.
    pub open spec fn legal(self, w: WriteBurst) -> bool {
        w.wf(self.bus) && w.in_window(self.mem.base, self.mem.bytes.len() as int)
    }

    /// The model's invariant: a bus width it drives, a memory window that
    /// generated writes fit in, and only legal writes in its queues.
    pub open spec fn wf(self) -> bool {
        &&& valid_bus(self.bus)
        &&& self.mem.wf()
        &&& self.mem.bus == self.bus
        &&& self.mem.base % 1024 == 0
        &&& 1024 <= self.mem.bytes.len()
        &&& forall|i: int|
            0 <= i < self.issued_writes.len() ==> #[trigger] self.legal(self.issued_writes[i])
        &&& forall|i: int|
            0 <= i < self.awaiting_reads.len() ==> #[trigger] self.legal(self.awaiting_reads[i])
        &&& forall|i: int|
            0 <= i < self.issued_reads.len() ==> #[trigger] self.legal(self.issued_reads[i])
    }
}

/// The state after the write `w` is issued: it joins the issued writes and
/// its data is committed to shadow memory.
pub open spec fn after_write_issue(s: DriverState, w: WriteBurst) -> DriverState {
    DriverState {
        issued_writes: s.issued_writes.push(w),
        mem: written(s.mem, w),
        stats: Stats { writes: bump(s.stats.writes), ..s.stats },
        ..s
    }
}

/// The state after a write response with id `bid`: the oldest issued write
/// moves on to wait for its read-back; an id other than its own is a fault.
pub open spec fn after_write_done(s: DriverState, bid: u8) -> DriverState {
    let w = s.issued_writes[0];
    let bad = w.id != bid;
    DriverState {
        issued_writes: s.issued_writes.drop_first(),
        awaiting_reads: s.awaiting_reads.push(w),
        faults: if bad {
            s.faults.push(Fault::WriteIdMismatch { expected: w.id, actual: bid })
        } else {
            s.faults
        },
        manual_finish: s.manual_finish || bad,
        stats: Stats { write_dones: bump(s.stats.write_dones), ..s.stats },
        ..s
    }
}

/// A read may be issued: a write waits for its read-back and no read is
/// outstanding.
pub open spec fn read_can_issue(s: DriverState) -> bool {
    s.awaiting_reads.len() > 0 && s.issued_reads.len() == 0
}

/// The state after the read-back of the oldest waiting write is issued.
pub open spec fn after_read_issue(s: DriverState) -> DriverState {
    DriverState {
        awaiting_reads: s.awaiting_reads.drop_first(),
        issued_reads: s.issued_reads.push(s.awaiting_reads[0]),
        stats: Stats { reads: bump(s.stats.reads), ..s.stats },
        ..s
    }
}

/// The faults of a read completion's last flag, id and beat count, checked
/// against the outstanding read of `w`, in that order.
pub open spec fn header_faults(w: WriteBurst, len: u32, rid: u8, rlast: u8) -> Seq<Fault> {
    (if rlast != 1 {
        seq![Fault::ReadLastMissing { last: rlast }]
    } else {
        seq![]
    }) + (if rid != w.id {
        seq![Fault::ReadIdMismatch { expected: w.id, actual: rid }]
    } else {
        seq![]
    }) + (if len != w.beats() {
        seq![Fault::ReadLengthMismatch { expected_beats: w.beats() as u32, reported_beats: len }]
    } else {
        seq![]
    })
}

/// `new` are the faults a read completion raises: those of its header, then
/// the data fault if the data disagrees with shadow memory `m` on a lane
/// that the strobes of `w` enabled.
pub open spec fn read_faults(
    new: Seq<Fault>,
    w: WriteBurst,
    m: MemImage,
    rdata: Seq<u32>,
    len: u32,
    rid: u8,
    rlast: u8,
) -> bool {
    let head = header_faults(w, len, rid, rlast);
    &&& new.len() >= head.len()
    &&& new.subrange(0, head.len() as int) == head
    &&& data_agrees(w, m, rdata) ==> new.len() == head.len()
    &&& !data_agrees(w, m, rdata) ==> new.len() == head.len() + 1 && is_data_fault(
        new[head.len() as int],
        w,
        m,
        rdata,
    )
}

/// What the watchdog answers at `tick`: finish once a fault was found; time
/// out past the end of the trace window or at the timeout tick; otherwise
/// continue, and start the trace capture, once, when the tick has reached
/// the start of the window.
pub open spec fn watchdog_poll(s: DriverState, tick: u64) -> Poll {
    if s.manual_finish {
        Poll { verdict: Verdict::Finish, start_dump: false }
    } else if s.trace matches Some(t) && t.end != 0 && tick > t.end {
        Poll { verdict: Verdict::Timeout, start_dump: false }
    } else {
        if tick >= s.timeout {
            Poll { verdict: Verdict::Timeout, start_dump: false }
        } else {
            let start_dump = s.trace matches Some(t) && !s.dump_started && tick >= t.start;
            Poll { verdict: Verdict::Continue, start_dump }
        }
    }
}

/// The bus-functional model: one instance drives one simulated interface.
pub struct Driver {
    bus: u32,
    timeout: u64,
    trace: Option<TraceWindow>,
    dump_started: bool,
    manual_finish: bool,
    shadow_mem: ShadowMem,
    write_fifo: VecDeque<AxiWritePayload>,
    write_done_fifo: VecDeque<AxiWritePayload>,
    read_fifo: VecDeque<AxiWritePayload>,
    awid: u8,
    rng: StdRng,
    stats: Stats,
    faults: Vec<Fault>,
}

impl View for Driver {
    type V = DriverState;

    closed spec fn view(&self) -> DriverState {
        DriverState {
            bus: self.bus as int,
            timeout: self.timeout,
            trace: self.trace,
            dump_started: self.dump_started,
            manual_finish: self.manual_finish,
            mem: self.shadow_mem@,
            issued_writes: bursts(self.write_fifo@),
            awaiting_reads: bursts(self.write_done_fifo@),
            issued_reads: bursts(self.read_fifo@),
            next_id: self.awid,
            stats: self.stats,
            faults: self.faults@,
        }
    }
}

impl Driver {
    /// A model with empty queues, no faults, zeroed statistics and a zeroed
    /// memory window, seeded from `config.seed`.
    pub fn new(config: DriverConfig) -> (r: Self)
        requires
            config.bus_width_bits == 8 || config.bus_width_bits == 16 || config.bus_width_bits
                == 32,
            config.mem_base % WINDOW_ALIGN == 0,
            config.mem_size % WINDOW_ALIGN == 0,
            WINDOW_ALIGN <= config.mem_size,
            config.mem_base + config.mem_size <= 0x1_0000_0000,
        ensures
            r@.wf(),
            r@.bus == config.bus_width_bits / 8,
            r@.timeout == config.timeout,
            r@.trace == config.trace,
            !r@.dump_started,
            !r@.manual_finish,
            r@.mem.base == config.mem_base,
            r@.mem.bytes.len() == config.mem_size,
            forall|i: int| 0 <= i < config.mem_size ==> r@.mem.bytes[i] == 0,
            r@.issued_writes.len() == 0,
            r@.awaiting_reads.len() == 0,
            r@.issued_reads.len() == 0,
            r@.next_id == 0,
            r@.stats == (Stats { writes: 0, write_dones: 0, reads: 0, read_dones: 0 }),
            r@.faults.len() == 0,
    {
        let bus = config.bus_width_bits / 8;
        proof {
            lemma_window_base_divides(config.mem_base as int, bus as int);
            lemma_window_base_divides(config.mem_size as int, bus as int);
        }
        let r = Driver {
            bus,
            timeout: config.timeout,
            trace: config.trace,
            dump_started: false,
            manual_finish: false,
            shadow_mem: ShadowMem::with_window(config.mem_base, config.mem_size, bus),
            write_fifo: VecDeque::new(),
            write_done_fifo: VecDeque::new(),
            read_fifo: VecDeque::new(),
            awid: 0,
            rng: seeded_rng(config.seed),
            stats: Stats { writes: 0, write_dones: 0, reads: 0, read_dones: 0 },
            faults: Vec::new(),
        };
        assert(r@.issued_writes =~= Seq::empty());
        assert(r@.awaiting_reads =~= Seq::empty());
        assert(r@.issued_reads =~= Seq::empty());
        r
    }

    /// Issues the write `payload`: it joins the issued writes and its data is
    /// committed to shadow memory at once.
    pub fn issue_write(&mut self, payload: AxiWritePayload)
        requires
            old(self)@.wf(),
            old(self)@.legal(payload@),
        ensures
            final(self)@ == after_write_issue(old(self)@, payload@),
            final(self)@.wf(),
    {
        let ghost s = self@;
        let copy = payload.duplicate();
        self.shadow_mem.write_mem_axi(copy);
        self.write_fifo.push_back(payload);
        self.stats.writes = self.stats.writes.saturating_add(1);
        assert(self@.issued_writes =~= s.issued_writes.push(payload@));
        assert(self@ =~= after_write_issue(s, payload@));
        proof {
            lemma_legal_after_write(s, payload@);
        }
    }

    /// Answers a write-address handshake: generates a legal random write
    /// whose id is the low four bits of the id counter, issues it, steps the
    /// counter, and returns it.
    pub fn axi_write_ready(&mut self) -> (r: AxiWritePayload)
        requires
            old(self)@.wf(),
        ensures
            old(self)@.legal(r@),
            r.id == old(self)@.next_id & 0xf,
            r.data_valid == 1,
            r.size <= max_size(old(self)@.bus),
            r.burst == BURST_FIXED ==> r@.beats() <= 16,
            r.strb@.len() == WRITE_SLOTS,
            forall|k: int|
                0 <= k < r.strb@.len() ==> #[trigger] r.strb@[k] == if k < r@.beats() {
                    lane_mask(r@.beat_lane(k, old(self)@.bus) as u8, beat_bytes(r.size) as u8)
                } else {
                    0
                },
            final(self)@ == (DriverState {
                next_id: old(self)@.next_id.wrapping_add(1),
                ..after_write_issue(old(self)@, r@)
            }),
            final(self)@.wf(),
    {
        let id = self.awid & 0xf;
        let base = self.shadow_mem.base();
        let size = self.shadow_mem.size();
        let payload = AxiWritePayload::random(&mut self.rng, id, self.bus, base, size);
        let copy = payload.duplicate();
        self.issue_write(copy);
        self.awid = self.awid.wrapping_add(1);
        proof {
            lemma_wf_same_queues(after_write_issue(old(self)@, payload@), self@);
        }
        payload
    }

    /// Answers a write response with id `bid`: the oldest issued write moves
    /// on to wait for its read-back; if its id is not `bid` a fault is
    /// recorded and the watchdog will finish the run. The response code and
    /// user byte are carried but not checked.
    #[allow(unused_variables)]
    pub fn axi_write_done(&mut self, bid: u8, bresp: u8, buser: u8)
        requires
            old(self)@.wf(),
            old(self)@.issued_writes.len() > 0,
        ensures
            final(self)@ == after_write_done(old(self)@, bid),
            final(self)@.wf(),
    {
        let ghost s = self@;
        let payload = self.write_fifo.pop_front().unwrap();
        assert(payload@ == s.issued_writes[0]);
        if payload.id != bid {
            self.faults.push(Fault::WriteIdMismatch { expected: payload.id, actual: bid });
            self.manual_finish = true;
        }
        self.write_done_fifo.push_back(payload);
        self.stats.write_dones = self.stats.write_dones.saturating_add(1);
        assert(self@.issued_writes =~= s.issued_writes.drop_first());
        assert(self@.awaiting_reads =~= s.awaiting_reads.push(s.issued_writes[0]));
        assert(self@ =~= after_write_done(s, bid));
        proof {
            lemma_legal_after_write_done(s, bid);
        }
    }

    /// Answers a read-address handshake. When a write waits for its
    /// read-back and no read is outstanding, the oldest waiting write's
    /// read-back is issued and returned, valid. Otherwise an idle slot is
    /// returned: random fields, `valid` cleared, nothing issued.
    pub fn axi_read_ready(&mut self) -> (r: AxiReadPayload)
        requires
            old(self)@.wf(),
        ensures
            (r.valid == 1) <==> read_can_issue(old(self)@),
            read_can_issue(old(self)@) ==> r == read_of(old(self)@.awaiting_reads[0])
                && final(self)@ == after_read_issue(old(self)@),
            !read_can_issue(old(self)@) ==> r.valid == 0 && final(self)@ == old(self)@,
            final(self)@.wf(),
    {
        let ghost s = self@;
        if self.write_done_fifo.len() == 0 || self.read_fifo.len() != 0 {
            let mut idle = AxiReadPayload::random(&mut self.rng);
            idle.valid = 0;
            assert(self@ =~= s);
            idle
        } else {
            let write_payload = self.write_done_fifo.pop_front().unwrap();
            assert(write_payload@ == s.awaiting_reads[0]);
            let payload = AxiReadPayload::from_write_payload(&write_payload);
            self.read_fifo.push_back(write_payload);
            self.stats.reads = self.stats.reads.saturating_add(1);
            assert(self@.awaiting_reads =~= s.awaiting_reads.drop_first());
            assert(self@.issued_reads =~= s.issued_reads.push(s.awaiting_reads[0]));
            assert(self@ =~= after_read_issue(s));
            proof {
                lemma_legal_after_read_issue(s);
            }
            payload
        }
    }

    /// Answers the completion of a read burst: `rdata` holds the returned
    /// words, one per beat, `len` the reported beat count. The outstanding
    /// read retires. Its last flag, id and beat count are checked, then its
    /// data against shadow memory, on each lane that the write's strobe for
    /// that beat enabled, at that lane's address. Each failed check is
    /// recorded as a fault (for the data, the first lane that differs), and
    /// any fault makes the watchdog finish the run.
    #[allow(unused_variables)]
    pub fn axi_read_done(
        &mut self,
        rdata: Vec<u32>,
        len: u32,
        rid: u8,
        rlast: u8,
        rresp: u8,
        ruser: u8,
    )
        requires
            old(self)@.wf(),
            old(self)@.issued_reads.len() > 0,
        ensures
            final(self)@.faults.len() >= old(self)@.faults.len(),
            final(self)@.faults.subrange(0, old(self)@.faults.len() as int) == old(self)@.faults,
            read_faults(
                final(self)@.faults.subrange(
                    old(self)@.faults.len() as int,
                    final(self)@.faults.len() as int,
                ),
                old(self)@.issued_reads[0],
                old(self)@.mem,
                rdata@,
                len,
                rid,
                rlast,
            ),
            final(self)@ == (DriverState {
                issued_reads: old(self)@.issued_reads.drop_first(),
                faults: final(self)@.faults,
                manual_finish: old(self)@.manual_finish || final(self)@.faults.len() > old(
                    self,
                )@.faults.len(),
                stats: Stats { read_dones: bump(old(self)@.stats.read_dones), ..old(self)@.stats },
                ..old(self)@
            }),
            final(self)@.wf(),
    {
        let ghost s = self@;
        let payload = self.read_fifo.pop_front().unwrap();
        let ghost w = payload@;
        assert(w == s.issued_reads[0]);
        assert(s.legal(w));
        let mut found: Vec<Fault> = Vec::new();
        if rlast != 1 {
            found.push(Fault::ReadLastMissing { last: rlast });
        }
        if rid != payload.id {
            found.push(Fault::ReadIdMismatch { expected: payload.id, actual: rid });
        }
        let beats: u32 = payload.len as u32 + 1;
        if len != beats {
            found.push(Fault::ReadLengthMismatch { expected_beats: beats, reported_beats: len });
        }
        assert(found@ =~= header_faults(w, len, rid, rlast));
        let ghost head = found@;
        let data_fault = compare_read_data(&payload, &self.shadow_mem, &rdata);
        if let Some(f) = data_fault {
            found.push(f);
        }
        let ghost old_faults = self.faults@;
        let ghost new_faults = found@;
        let raised = found.len() > 0;
        self.faults.append(&mut found);
        if raised {
            self.manual_finish = true;
        }
        self.stats.read_dones = self.stats.read_dones.saturating_add(1);
        assert(self.faults@.subrange(0, old_faults.len() as int) =~= old_faults);
        assert(self.faults@.subrange(old_faults.len() as int, self.faults@.len() as int)
            =~= new_faults);
        assert(new_faults.subrange(0, head.len() as int) =~= head);
        assert(self@.issued_reads =~= s.issued_reads.drop_first());
        proof {
            lemma_legal_after_read_done(s, self@);
        }
    }

    /// Called once the model is set up: when tracing starts at tick 0, the
    /// capture starts now. Returns whether the caller is to start it.
    pub fn init(&mut self) -> (r: bool)
        ensures
            r == (old(self)@.trace matches Some(t) && t.start == 0 && !old(self)@.dump_started),
            final(self)@ == (DriverState { dump_started: old(self)@.dump_started || r, ..old(self)@ }),
    {
        let start = match self.trace {
            Some(t) => t.start == 0 && !self.dump_started,
            None => false,
        };
        if start {
            self.dump_started = true;
        }
        start
    }

    /// Polled once per clock with the current tick: finishes once a fault
    /// was found; times out past the end of the trace window or at the
    /// timeout tick; otherwise continues. Reports, once, when the trace
    /// capture is to start.
    pub fn watchdog(&mut self, tick: u64) -> (r: Poll)
        ensures
            r == watchdog_poll(old(self)@, tick),
            final(self)@ == (DriverState {
                dump_started: old(self)@.dump_started || r.start_dump,
                ..old(self)@
            }),
    {
        if self.manual_finish {
            return Poll { verdict: Verdict::Finish, start_dump: false };
        }
        if let Some(t) = self.trace {
            if t.end != 0 && tick > t.end {
                return Poll { verdict: Verdict::Timeout, start_dump: false };
            }
        }
        if tick >= self.timeout {
            return Poll { verdict: Verdict::Timeout, start_dump: false };
        }
        let start_dump = match self.trace {
            Some(t) => !self.dump_started && tick >= t.start,
            None => false,
        };
        if start_dump {
            self.dump_started = true;
        }
        Poll { verdict: Verdict::Continue, start_dump }
    }

    /// Transactions issued and completed so far.
    pub fn stats(&self) -> (r: Stats)
        ensures
            r == self@.stats,
    {
        self.stats
    }

    /// The faults found so far, oldest first.
    pub fn faults(&self) -> (r: &Vec<Fault>)
        ensures
            r@ == self@.faults,
    {
        &self.faults
    }

    /// Whether a fault asks the watchdog to finish the run.
    pub fn manual_finish(&self) -> (r: bool)
        ensures
            r == self@.manual_finish,
    {
        self.manual_finish
    }

    /// Number of writes issued and not yet acknowledged.
    pub fn issued_write_count(&self) -> (r: usize)
        ensures
            r == self@.issued_writes.len(),
    {
        self.write_fifo.len()
    }

    /// Number of acknowledged writes waiting for their read-back.
    pub fn awaiting_read_count(&self) -> (r: usize)
        ensures
            r == self@.awaiting_reads.len(),
    {
        self.write_done_fifo.len()
    }

    /// Number of read-backs outstanding.
    pub fn issued_read_count(&self) -> (r: usize)
        ensures
            r == self@.issued_reads.len(),
    {
        self.read_fifo.len()
    }

    /// The shadow memory.
    pub fn memory(&self) -> (r: &ShadowMem)
        ensures
            r@ == self@.mem,
    {
        &self.shadow_mem
    }

    /// Data bus width in bytes.
    pub fn bus_bytes(&self) -> (r: u32)
        ensures
            r == self@.bus,
    {
        self.bus
    }
}

/// Issuing a legal write keeps the model's invariant.
proof fn lemma_legal_after_write(s: DriverState, w: WriteBurst)
    requires
        s.wf(),
        s.legal(w),
    ensures
        after_write_issue(s, w).wf(),
{
    let t = after_write_issue(s, w);
    crate::shadow::lemma_write_beats_len(s.mem.bytes, s.mem.base, s.mem.bus, w, w.beats() as nat);
    assert forall|i: int| 0 <= i < t.issued_writes.len() implies #[trigger] t.legal(
        t.issued_writes[i],
    ) by {
        if i < s.issued_writes.len() {
            assert(s.legal(s.issued_writes[i]));
        }
    }
    assert forall|i: int| 0 <= i < t.awaiting_reads.len() implies #[trigger] t.legal(
        t.awaiting_reads[i],
    ) by {
        assert(s.legal(s.awaiting_reads[i]));
    }
    assert forall|i: int| 0 <= i < t.issued_reads.len() implies #[trigger] t.legal(
        t.issued_reads[i],
    ) by {
        assert(s.legal(s.issued_reads[i]));
    }
}

/// The invariant speaks only of the bus, the memory and the queues.
proof fn lemma_wf_same_queues(s: DriverState, t: DriverState)
    requires
        s.wf(),
        t.bus == s.bus,
        t.mem == s.mem,
        t.issued_writes == s.issued_writes,
        t.awaiting_reads == s.awaiting_reads,
        t.issued_reads == s.issued_reads,
    ensures
        t.wf(),
{
    assert forall|i: int| 0 <= i < t.issued_writes.len() implies #[trigger] t.legal(
        t.issued_writes[i],
    ) by {
        assert(s.legal(s.issued_writes[i]));
    }
    assert forall|i: int| 0 <= i < t.awaiting_reads.len() implies #[trigger] t.legal(
        t.awaiting_reads[i],
    ) by {
        assert(s.legal(s.awaiting_reads[i]));
    }
    assert forall|i: int| 0 <= i < t.issued_reads.len() implies #[trigger] t.legal(
        t.issued_reads[i],
    ) by {
        assert(s.legal(s.issued_reads[i]));
    }
}

/// Acknowledging a write keeps the model's invariant.
proof fn lemma_legal_after_write_done(s: DriverState, bid: u8)
    requires
        s.wf(),
        s.issued_writes.len() > 0,
    ensures
        after_write_done(s, bid).wf(),
{
    let t = after_write_done(s, bid);
    assert forall|i: int| 0 <= i < t.issued_writes.len() implies #[trigger] t.legal(
        t.issued_writes[i],
    ) by {
        assert(s.legal(s.issued_writes[i + 1]));
    }
    assert forall|i: int| 0 <= i < t.awaiting_reads.len() implies #[trigger] t.legal(
        t.awaiting_reads[i],
    ) by {
        if i < s.awaiting_reads.len() {
            assert(s.legal(s.awaiting_reads[i]));
        } else {
            assert(s.legal(s.issued_writes[0]));
        }
    }
    assert forall|i: int| 0 <= i < t.issued_reads.len() implies #[trigger] t.legal(
        t.issued_reads[i],
    ) by {
        assert(s.legal(s.issued_reads[i]));
    }
}

/// Issuing a read-back keeps the model's invariant.
proof fn lemma_legal_after_read_issue(s: DriverState)
    requires
        s.wf(),
        s.awaiting_reads.len() > 0,
    ensures
        after_read_issue(s).wf(),
{
    let t = after_read_issue(s);
    assert forall|i: int| 0 <= i < t.issued_writes.len() implies #[trigger] t.legal(
        t.issued_writes[i],
    ) by {
        assert(s.legal(s.issued_writes[i]));
    }
    assert forall|i: int| 0 <= i < t.awaiting_reads.len() implies #[trigger] t.legal(
        t.awaiting_reads[i],
    ) by {
        assert(s.legal(s.awaiting_reads[i + 1]));
    }
    assert forall|i: int| 0 <= i < t.issued_reads.len() implies #[trigger] t.legal(
        t.issued_reads[i],
    ) by {
        if i < s.issued_reads.len() {
            assert(s.legal(s.issued_reads[i]));
        } else {
            assert(s.legal(s.awaiting_reads[0]));
        }
    }
}

/// Retiring the outstanding read keeps the model's invariant.
proof fn lemma_legal_after_read_done(s: DriverState, t: DriverState)
    requires
        s.wf(),
        s.issued_reads.len() > 0,
        t.bus == s.bus,
        t.mem == s.mem,
        t.issued_writes == s.issued_writes,
        t.awaiting_reads == s.awaiting_reads,
        t.issued_reads == s.issued_reads.drop_first(),
    ensures
        t.wf(),
{
    assert forall|i: int| 0 <= i < t.issued_writes.len() implies #[trigger] t.legal(
        t.issued_writes[i],
    ) by {
        assert(s.legal(s.issued_writes[i]));
    }
    assert forall|i: int| 0 <= i < t.awaiting_reads.len() implies #[trigger] t.legal(
        t.awaiting_reads[i],
    ) by {
        assert(s.legal(s.awaiting_reads[i]));
    }
    assert forall|i: int| 0 <= i < t.issued_reads.len() implies #[trigger] t.legal(
        t.issued_reads[i],
    ) by {
        assert(s.legal(s.issued_reads[i + 1]));
    }
}

/// With no fault found and no trace window, the watchdog continues before
/// the timeout tick and times out at it.
pub proof fn lemma_watchdog_timeout(s: DriverState, tick: u64)
    requires
        !s.manual_finish,
        s.trace is None,
    ensures
        tick < s.timeout ==> watchdog_poll(s, tick) == (Poll {
            verdict: Verdict::Continue,
            start_dump: false,
        }),
        tick == s.timeout ==> watchdog_poll(s, tick) == (Poll {
            verdict: Verdict::Timeout,
            start_dump: false,
        }),
{
}

/// Once a fault has been found, every poll finishes the run.
pub proof fn lemma_fault_finishes(s: DriverState, tick: u64)
    requires
        s.manual_finish,
    ensures
        watchdog_poll(s, tick).verdict == Verdict::Finish,
{
}

/// A read completion that flags its last beat, carries the outstanding
/// read's id and beat count, and returns on every lane its write enabled
/// what shadow memory holds there raises no fault.
pub proof fn lemma_faithful_completion_is_clean(
    new: Seq<Fault>,
    w: WriteBurst,
    m: MemImage,
    rdata: Seq<u32>,
    len: u32,
    rid: u8,
)
    requires
        read_faults(new, w, m, rdata, len, rid, 1),
        rid == w.id,
        len == w.beats(),
        data_agrees(w, m, rdata),
    ensures
        new.len() == 0,
{
    assert(header_faults(w, len, rid, 1) =~= Seq::<Fault>::empty());
}

/// The state after a read completion that raised no fault: the
/// outstanding read retires.
pub open spec fn after_clean_read_done(s: DriverState) -> DriverState {
    DriverState {
        issued_reads: s.issued_reads.drop_first(),
        stats: Stats { read_dones: bump(s.stats.read_dones), ..s.stats },
        ..s
    }
}

/// The state after each write of `ws` is issued in turn.
pub open spec fn issue_all(s: DriverState, ws: Seq<WriteBurst>) -> DriverState
    decreases ws.len(),
{
    if ws.len() == 0 {
        s
    } else {
        after_write_issue(issue_all(s, ws.drop_last()), ws.last())
    }
}

/// The state after `n` write responses, each with the id of the oldest
/// issued write.
pub open spec fn ack_all(s: DriverState, n: nat) -> DriverState
    decreases n,
{
    if n == 0 {
        s
    } else {
        let p = ack_all(s, (n - 1) as nat);
        after_write_done(p, p.issued_writes[0].id)
    }
}

/// The state after `n` read-backs, each issued and then completed without
/// a fault.
pub open spec fn read_back_all(s: DriverState, n: nat) -> DriverState
    decreases n,
{
    if n == 0 {
        s
    } else {
        after_clean_read_done(after_read_issue(read_back_all(s, (n - 1) as nat)))
    }
}

/// Issuing writes queues them in order and commits them to memory in order.
pub proof fn lemma_issue_all(s: DriverState, ws: Seq<WriteBurst>)
    ensures
        issue_all(s, ws).issued_writes == s.issued_writes + ws,
        issue_all(s, ws).mem == crate::shadow::written_all(s.mem, ws),
        issue_all(s, ws).awaiting_reads == s.awaiting_reads,
        issue_all(s, ws).issued_reads == s.issued_reads,
        issue_all(s, ws).faults == s.faults,
        issue_all(s, ws).manual_finish == s.manual_finish,
    decreases ws.len(),
{
    if ws.len() > 0 {
        lemma_issue_all(s, ws.drop_last());
        assert(s.issued_writes + ws.drop_last() + seq![ws.last()] =~= s.issued_writes + ws);
        assert((s.issued_writes + ws.drop_last()).push(ws.last()) =~= s.issued_writes + ws);
    }
}

/// Acknowledging the `n` oldest writes with their own ids moves them, in
/// order, to wait for their read-backs, and raises no fault.
pub proof fn lemma_ack_all(s: DriverState, n: nat)
    requires
        n <= s.issued_writes.len(),
    ensures
        ack_all(s, n).issued_writes == s.issued_writes.subrange(n as int, s.issued_writes.len() as int),
        ack_all(s, n).awaiting_reads == s.awaiting_reads + s.issued_writes.subrange(0, n as int),
        ack_all(s, n).issued_reads == s.issued_reads,
        ack_all(s, n).mem == s.mem,
        ack_all(s, n).faults == s.faults,
        ack_all(s, n).manual_finish == s.manual_finish,
    decreases n,
{
    if n > 0 {
        lemma_ack_all(s, (n - 1) as nat);
        let p = ack_all(s, (n - 1) as nat);
        assert(p.issued_writes[0] == s.issued_writes[n - 1]);
        assert(p.issued_writes.drop_first() =~= s.issued_writes.subrange(
            n as int,
            s.issued_writes.len() as int,
        ));
        assert((s.awaiting_reads + s.issued_writes.subrange(0, n - 1)).push(s.issued_writes[n - 1])
            =~= s.awaiting_reads + s.issued_writes.subrange(0, n as int));
    }
}

/// Reading back the `n` oldest waiting writes, one at a time, takes them in
/// order; each read-back may be issued when its turn comes, and it leaves
/// memory, faults and the finish flag as they were.
pub proof fn lemma_read_back_all(s: DriverState, n: nat)
    requires
        s.issued_reads.len() == 0,
        n <= s.awaiting_reads.len(),
    ensures
        read_back_all(s, n).awaiting_reads == s.awaiting_reads.subrange(
            n as int,
            s.awaiting_reads.len() as int,
        ),
        read_back_all(s, n).issued_reads.len() == 0,
        read_back_all(s, n).issued_writes == s.issued_writes,
        read_back_all(s, n).mem == s.mem,
        read_back_all(s, n).faults == s.faults,
        read_back_all(s, n).manual_finish == s.manual_finish,
        n < s.awaiting_reads.len() ==> read_can_issue(read_back_all(s, n)),
        n < s.awaiting_reads.len() ==> after_read_issue(read_back_all(s, n)).issued_reads
            == seq![s.awaiting_reads[n as int]],
    decreases n,
{
    if n > 0 {
        lemma_read_back_all(s, (n - 1) as nat);
        let p = read_back_all(s, (n - 1) as nat);
        assert(p.awaiting_reads.drop_first() =~= s.awaiting_reads.subrange(
            n as int,
            s.awaiting_reads.len() as int,
        ));
        assert(p.issued_reads.push(p.awaiting_reads[0]).drop_first() =~= Seq::<WriteBurst>::empty());
    }
    if n < s.awaiting_reads.len() {
        let q = read_back_all(s, n);
        assert(q.issued_reads.push(q.awaiting_reads[0]) =~= seq![s.awaiting_reads[n as int]]);
    }
}

/// A completion whose faults are those `read_faults` allows, with a last
/// flag, the outstanding read's id and beat count, and data that agrees
/// with shadow memory, leaves the state of a clean completion.
pub proof fn lemma_clean_completion_step(
    prev: DriverState,
    next: DriverState,
    rdata: Seq<u32>,
    len: u32,
    rid: u8,
)
    requires
        prev.issued_reads.len() > 0,
        next.faults.len() >= prev.faults.len(),
        next.faults.subrange(0, prev.faults.len() as int) == prev.faults,
        read_faults(
            next.faults.subrange(prev.faults.len() as int, next.faults.len() as int),
            prev.issued_reads[0],
            prev.mem,
            rdata,
            len,
            rid,
            1,
        ),
        next == (DriverState {
            issued_reads: prev.issued_reads.drop_first(),
            faults: next.faults,
            manual_finish: prev.manual_finish || next.faults.len() > prev.faults.len(),
            stats: Stats { read_dones: bump(prev.stats.read_dones), ..prev.stats },
            ..prev
        }),
        rid == prev.issued_reads[0].id,
        len == prev.issued_reads[0].beats(),
        data_agrees(prev.issued_reads[0], prev.mem, rdata),
    ensures
        next == after_clean_read_done(prev),
{
    lemma_faithful_completion_is_clean(
        next.faults.subrange(prev.faults.len() as int, next.faults.len() as int),
        prev.issued_reads[0],
        prev.mem,
        rdata,
        len,
        rid,
    );
    assert(next.faults =~= prev.faults);
}

/// Round trip through the model: from a state with empty queues, issue the
/// writes `ws`, acknowledge each with its own id, then read each back in
/// turn. Read-back `i` is of `ws[i]` and is checked against the memory
/// after all of `ws`, which holds at each lane the byte most recently
/// written there (`lemma_round_trip`). When every read-back completes
/// cleanly (`lemma_clean_completion_step`), the run ends with empty queues,
/// the faults it started with and the finish flag as it was.
pub proof fn lemma_model_round_trip(s: DriverState, ws: Seq<WriteBurst>, i: nat)
    requires
        s.issued_writes.len() == 0,
        s.awaiting_reads.len() == 0,
        s.issued_reads.len() == 0,
        i < ws.len(),
    ensures
        ({
            let acked = ack_all(issue_all(s, ws), ws.len());
            let before = read_back_all(acked, i);
            &&& read_can_issue(before)
            &&& after_read_issue(before).issued_reads == seq![ws[i as int]]
            &&& after_read_issue(before).mem == crate::shadow::written_all(s.mem, ws)
        }),
        ({
            let end = read_back_all(ack_all(issue_all(s, ws), ws.len()), ws.len());
            &&& end.issued_writes.len() == 0
            &&& end.awaiting_reads.len() == 0
            &&& end.issued_reads.len() == 0
            &&& end.faults == s.faults
            &&& end.manual_finish == s.manual_finish
        }),
{
    let issued = issue_all(s, ws);
    lemma_issue_all(s, ws);
    assert(issued.issued_writes =~= ws);
    let acked = ack_all(issued, ws.len());
    lemma_ack_all(issued, ws.len());
    assert(acked.awaiting_reads =~= ws);
    assert(acked.issued_writes.len() == 0);
    lemma_read_back_all(acked, i);
    lemma_read_back_all(acked, ws.len());
}

} // verus!
