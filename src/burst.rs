//! Burst address sequencing: the address of every beat of a fixed,
//! incrementing or wrapping burst.

use vstd::prelude::*;
use vstd::arithmetic::power2::pow2;
use vstd::arithmetic::div_mod::{
    lemma_fundamental_div_mod, lemma_mod_add_multiples_vanish, lemma_mod_multiples_basic,
};
use vstd::arithmetic::mul::lemma_mul_is_associative;

verus! {

/// Burst type code of a fixed burst: every beat uses the same address.
pub const BURST_FIXED: u8 = 0;

/// Burst type code of an incrementing burst.
pub const BURST_INCR: u8 = 1;

/// Burst type code of a wrapping burst.
pub const BURST_WRAP: u8 = 2;

/// Bytes moved by one beat whose size code is `size`.
pub open spec fn beat_bytes(size: u8) -> nat {
    pow2(size as nat)
}

/// The beat counts a wrapping burst may have.
pub open spec fn legal_wrap_beats(beats: int) -> bool {
    beats == 2 || beats == 4 || beats == 8 || beats == 16
}

/// Lower bound of the wrap window of a burst of `beats` beats of `n` bytes.
pub open spec fn wrap_lower(addr: int, n: int, beats: int) -> int {
    addr / (n * beats) * (n * beats)
}

/// Upper bound (exclusive) of the wrap window.
pub open spec fn wrap_upper(addr: int, n: int, beats: int) -> int {
    wrap_lower(addr, n, beats) + n * beats
}

/// The address of the beat that follows a beat at `cur`.
pub open spec fn next_address(cur: int, n: int, burst: u8, lower: int, upper: int) -> int {
    if burst == BURST_FIXED {
        cur
    } else if burst == BURST_INCR {
        cur + n
    } else if cur + n >= upper {
        lower
    } else {
        cur + n
    }
}

/// The address of beat `k` of a burst that starts at `addr`, moves `n` bytes
/// per beat and has `beats` beats.
pub open spec fn beat_address(addr: int, n: int, burst: u8, beats: int, k: nat) -> int
    decreases k,
{
    if k == 0 {
        addr
    } else {
        next_address(
            beat_address(addr, n, burst, beats, (k - 1) as nat),
            n,
            burst,
            wrap_lower(addr, n, beats),
            wrap_upper(addr, n, beats),
        )
    }
}

/// Every beat of the burst lies in the window `[base, base + len)`.
pub open spec fn burst_in_window(addr: int, n: int, burst: u8, beats: int, base: int, len: int) -> bool {
    forall|k: nat|
        k < beats ==> base <= #[trigger] beat_address(addr, n, burst, beats, k) && beat_address(
            addr,
            n,
            burst,
            beats,
            k,
        ) + n <= base + len
}

/// A burst that starts on a multiple of its beat size keeps every beat on
/// such a multiple.
pub proof fn lemma_beat_aligned(addr: int, n: int, burst: u8, beats: int, k: nat)
    requires
        n > 0,
        beats > 0,
        addr % n == 0,
    ensures
        beat_address(addr, n, burst, beats, k) % n == 0,
    decreases k,
{
    if k > 0 {
        lemma_beat_aligned(addr, n, burst, beats, (k - 1) as nat);
        let prev = beat_address(addr, n, burst, beats, (k - 1) as nat);
        lemma_mod_add_multiples_vanish(prev, n);
        let q = addr / (n * beats);
        lemma_mul_is_associative(q, beats, n);
        assert(q * (n * beats) == (q * beats) * n) by (nonlinear_arith);
        lemma_mod_multiples_basic(q * beats, n);
    }
}

/// The wrap window of a burst starts at or below its first address.
pub proof fn lemma_span_floor(addr: int, n: int, beats: int)
    requires
        0 <= addr,
        n >= 1,
        beats >= 1,
    ensures
        n * beats >= 1,
        0 <= addr / (n * beats) * (n * beats) <= addr,
{
    assert(n * beats >= 1) by (nonlinear_arith)
        requires
            n >= 1,
            beats >= 1,
    ;
    lemma_fundamental_div_mod(addr, n * beats);
    vstd::arithmetic::div_mod::lemma_div_pos_is_pos(addr, n * beats);
    assert(addr / (n * beats) * (n * beats) == (n * beats) * (addr / (n * beats))) by (nonlinear_arith);
    assert(0 <= addr / (n * beats) * (n * beats)) by (nonlinear_arith)
        requires
            addr / (n * beats) >= 0,
            n * beats >= 1,
    ;
}

/// Returns `2^size`, the number of bytes in one beat.
pub fn bytes_per_beat(size: u8) -> (n: u32)
    requires
        size <= 7,
    ensures
        n == beat_bytes(size),
        1 <= n <= 128,
        size == 0 ==> n == 1,
        size == 1 ==> n == 2,
        size == 2 ==> n == 4,
{
    proof {
        vstd::arithmetic::power2::lemma2_to64();
    }
    if size == 0 {
        1
    } else if size == 1 {
        2
    } else if size == 2 {
        4
    } else if size == 3 {
        8
    } else if size == 4 {
        16
    } else if size == 5 {
        32
    } else if size == 6 {
        64
    } else {
        128
    }
}

/// The address of the next beat: unchanged for a fixed burst, advanced by
/// `n` for an incrementing one, and for a wrapping one advanced by `n` unless
/// that reaches `upper`, in which case it restarts at `lower`.
pub fn next_beat_address(cur: u64, n: u64, burst: u8, lower: u64, upper: u64) -> (r: u64)
    requires
        burst <= BURST_WRAP,
        cur + n <= u64::MAX,
    ensures
        r == next_address(cur as int, n as int, burst, lower as int, upper as int),
{
    if burst == BURST_FIXED {
        cur
    } else if burst == BURST_INCR {
        cur + n
    } else if cur + n >= upper {
        lower
    } else {
        cur + n
    }
}

/// In an incrementing burst beat `k` starts `k` beats after the first.
pub proof fn lemma_incr_beat_address(addr: int, n: int, beats: int, k: nat)
    ensures
        beat_address(addr, n, BURST_INCR, beats, k) == addr + k * n,
    decreases k,
{
    if k > 0 {
        lemma_incr_beat_address(addr, n, beats, (k - 1) as nat);
        assert(beat_address(addr, n, BURST_INCR, beats, k) == beat_address(
            addr,
            n,
            BURST_INCR,
            beats,
            (k - 1) as nat,
        ) + n);
        assert(addr + (k - 1) * n + n == addr + k * n) by (nonlinear_arith);
    } else {
        assert(k * n == 0) by (nonlinear_arith)
            requires
                k == 0,
        ;
    }
}

/// In a fixed burst every beat uses the first address.
pub proof fn lemma_fixed_beat_address(addr: int, n: int, beats: int, k: nat)
    ensures
        beat_address(addr, n, BURST_FIXED, beats, k) == addr,
    decreases k,
{
    if k > 0 {
        lemma_fixed_beat_address(addr, n, beats, (k - 1) as nat);
    }
}

/// Of two multiples of `n`, the smaller is at least `n` below the larger.
pub proof fn lemma_multiple_step(x: int, y: int, n: int)
    requires
        n > 0,
        x % n == 0,
        y % n == 0,
        x < y,
    ensures
        x + n <= y,
{
    lemma_fundamental_div_mod(x, n);
    lemma_fundamental_div_mod(y, n);
    let p = x / n;
    let q = y / n;
    assert(x == n * p && y == n * q);
    assert(p < q) by (nonlinear_arith)
        requires
            x == n * p,
            y == n * q,
            x < y,
            n > 0,
    ;
    assert(n * p + n <= n * q) by (nonlinear_arith)
        requires
            p < q,
            n > 0,
    ;
}

/// Every beat of a wrapping burst that starts on a multiple of its beat
/// size lies inside its wrap window.
pub proof fn lemma_wrap_beats_in_window(addr: int, n: int, beats: int, k: nat)
    requires
        addr >= 0,
        n > 0,
        beats > 0,
        addr % n == 0,
    ensures
        wrap_lower(addr, n, beats) <= beat_address(addr, n, BURST_WRAP, beats, k),
        beat_address(addr, n, BURST_WRAP, beats, k) + n <= wrap_upper(addr, n, beats),
    decreases k,
{
    let span = n * beats;
    assert(n * beats > 0) by (nonlinear_arith)
        requires
            n > 0,
            beats > 0,
    ;
    let lower = wrap_lower(addr, n, beats);
    let upper = wrap_upper(addr, n, beats);
    lemma_fundamental_div_mod(addr, span);
    assert(lower == span * (addr / span)) by (nonlinear_arith)
        requires
            lower == addr / span * span,
            span == n * beats,
    ;
    let q = addr / span;
    lemma_mul_is_associative(q, beats, n);
    assert(q * (n * beats) == (q * beats) * n) by (nonlinear_arith);
    lemma_mod_multiples_basic(q * beats, n);
    lemma_mod_multiples_basic(q * beats + 1, n);
    assert(upper == (q * beats + beats) * n) by (nonlinear_arith)
        requires
            upper == q * (n * beats) + n * beats,
    ;
    lemma_mod_multiples_basic(q * beats + beats, n);
    lemma_beat_aligned(addr, n, BURST_WRAP, beats, k);
    if k == 0 {
        lemma_multiple_step(addr, upper, n);
    } else {
        lemma_wrap_beats_in_window(addr, n, beats, (k - 1) as nat);
        let prev = beat_address(addr, n, BURST_WRAP, beats, (k - 1) as nat);
        if prev + n < upper {
            lemma_beat_aligned(addr, n, BURST_WRAP, beats, (k - 1) as nat);
            lemma_mod_add_multiples_vanish(prev, n);
            lemma_multiple_step(prev + n, upper, n);
        } else {
            lemma_multiple_step(lower, upper, n);
        }
    }
}

} // verus!
