//! Byte layouts handed to the simulator: words little- or big-endian, and
//! the packed request payloads, last field first.

use vstd::prelude::*;
use crate::payload::{AxiReadPayload, AxiWritePayload};

verus! {

/// The four bytes of `x`, least significant first.
pub open spec fn le_bytes(x: u32) -> Seq<u8> {
    seq![(x & 0xff) as u8, ((x >> 8u32) & 0xff) as u8, ((x >> 16u32) & 0xff) as u8, ((x >> 24u32) & 0xff) as u8]
}

/// The four bytes of `x`, most significant first.
pub open spec fn be_bytes(x: u32) -> Seq<u8> {
    seq![((x >> 24u32) & 0xff) as u8, ((x >> 16u32) & 0xff) as u8, ((x >> 8u32) & 0xff) as u8, (x & 0xff) as u8]
}

/// The words of `s` one after the other, each least significant byte first.
pub open spec fn words_le(s: Seq<u32>) -> Seq<u8>
    decreases s.len(),
{
    if s.len() == 0 {
        Seq::empty()
    } else {
        words_le(s.drop_last()) + le_bytes(s.last())
    }
}

/// The words of `s` one after the other, each most significant byte first.
pub open spec fn words_be(s: Seq<u32>) -> Seq<u8>
    decreases s.len(),
{
    if s.len() == 0 {
        Seq::empty()
    } else {
        words_be(s.drop_last()) + be_bytes(s.last())
    }
}

/// Values with a little-endian byte layout.
pub trait ToBytes {
    /// The layout as a sequence of bytes.
    spec fn byte_layout(&self) -> Seq<u8>;

    /// Returns the layout.
    fn to_bytes(&self) -> (r: Vec<u8>)
        ensures
            r@ == self.byte_layout(),
    ;
}

/// Values with a big-endian byte layout.
pub trait ToBytesBe {
    /// The layout as a sequence of bytes.
    spec fn byte_layout_be(&self) -> Seq<u8>;

    /// Returns the layout.
    fn to_bytes_be(&self) -> (r: Vec<u8>)
        ensures
            r@ == self.byte_layout_be(),
    ;
}

fn push_le(out: &mut Vec<u8>, x: u32)
    ensures
        final(out)@ == old(out)@ + le_bytes(x),
{
    out.push((x & 0xff) as u8);
    out.push(((x >> 8) & 0xff) as u8);
    out.push(((x >> 16) & 0xff) as u8);
    out.push(((x >> 24) & 0xff) as u8);
    assert(out@ =~= old(out)@ + le_bytes(x));
}

fn push_be(out: &mut Vec<u8>, x: u32)
    ensures
        final(out)@ == old(out)@ + be_bytes(x),
{
    out.push(((x >> 24) & 0xff) as u8);
    out.push(((x >> 16) & 0xff) as u8);
    out.push(((x >> 8) & 0xff) as u8);
    out.push((x & 0xff) as u8);
    assert(out@ =~= old(out)@ + be_bytes(x));
}

fn push_words_le(out: &mut Vec<u8>, words: &Vec<u32>)
    ensures
        final(out)@ == old(out)@ + words_le(words@),
{
    let ghost start = out@;
    let mut i: usize = 0;
    while i < words.len()
        invariant
            i <= words@.len(),
            out@ == start + words_le(words@.subrange(0, i as int)),
        decreases words@.len() - i,
    {
        push_le(out, words[i]);
        assert(words@.subrange(0, i + 1).drop_last() =~= words@.subrange(0, i as int));
        assert(start + words_le(words@.subrange(0, i as int)) + le_bytes(words@[i as int]) =~= start
            + words_le(words@.subrange(0, i + 1)));
        i += 1;
    }
    assert(words@.subrange(0, words@.len() as int) =~= words@);
}

fn push_words_be(out: &mut Vec<u8>, words: &Vec<u32>)
    ensures
        final(out)@ == old(out)@ + words_be(words@),
{
    let ghost start = out@;
    let mut i: usize = 0;
    while i < words.len()
        invariant
            i <= words@.len(),
            out@ == start + words_be(words@.subrange(0, i as int)),
        decreases words@.len() - i,
    {
        push_be(out, words[i]);
        assert(words@.subrange(0, i + 1).drop_last() =~= words@.subrange(0, i as int));
        assert(start + words_be(words@.subrange(0, i as int)) + be_bytes(words@[i as int]) =~= start
            + words_be(words@.subrange(0, i + 1)));
        i += 1;
    }
    assert(words@.subrange(0, words@.len() as int) =~= words@);
}

fn push_all(out: &mut Vec<u8>, bytes: &Vec<u8>)
    ensures
        final(out)@ == old(out)@ + bytes@,
{
    let ghost start = out@;
    let mut i: usize = 0;
    while i < bytes.len()
        invariant
            i <= bytes@.len(),
            out@ == start + bytes@.subrange(0, i as int),
        decreases bytes@.len() - i,
    {
        out.push(bytes[i]);
        assert(start + bytes@.subrange(0, i + 1) =~= start + bytes@.subrange(0, i as int) + seq![
            bytes@[i as int],
        ]);
        i += 1;
    }
    assert(bytes@.subrange(0, bytes@.len() as int) =~= bytes@);
}

impl ToBytes for u32 {
    open spec fn byte_layout(&self) -> Seq<u8> {
        le_bytes(*self)
    }

    fn to_bytes(&self) -> (r: Vec<u8>) {
        let mut r: Vec<u8> = Vec::new();
        push_le(&mut r, *self);
        assert(r@ =~= le_bytes(*self));
        r
    }
}

impl ToBytesBe for u32 {
    open spec fn byte_layout_be(&self) -> Seq<u8> {
        be_bytes(*self)
    }

    fn to_bytes_be(&self) -> (r: Vec<u8>) {
        let mut r: Vec<u8> = Vec::new();
        push_be(&mut r, *self);
        assert(r@ =~= be_bytes(*self));
        r
    }
}

impl ToBytes for Vec<u32> {
    open spec fn byte_layout(&self) -> Seq<u8> {
        words_le(self@)
    }

    fn to_bytes(&self) -> (r: Vec<u8>) {
        let mut r: Vec<u8> = Vec::new();
        push_words_le(&mut r, self);
        assert(r@ =~= words_le(self@));
        r
    }
}

impl ToBytesBe for Vec<u32> {
    open spec fn byte_layout_be(&self) -> Seq<u8> {
        words_be(self@)
    }

    fn to_bytes_be(&self) -> (r: Vec<u8>) {
        let mut r: Vec<u8> = Vec::new();
        push_words_be(&mut r, self);
        assert(r@ =~= words_be(self@));
        r
    }
}

impl ToBytes for AxiWritePayload {
    /// Size, region, QoS, protection, lock, cache, burst, data-valid and
    /// address user byte; the user bytes, strobes and data words of the
    /// beats; the address; then length and id.
    open spec fn byte_layout(&self) -> Seq<u8> {
        seq![
            self.size,
            self.region,
            self.qos,
            self.prot,
            self.lock,
            self.cache,
            self.burst,
            self.data_valid,
            self.aw_user,
        ] + self.w_user@ + self.strb@ + words_le(self.data@) + le_bytes(self.addr) + seq![
            self.len,
            self.id,
        ]
    }

    fn to_bytes(&self) -> (r: Vec<u8>) {
        let mut r: Vec<u8> = Vec::new();
        r.push(self.size);
        r.push(self.region);
        r.push(self.qos);
        r.push(self.prot);
        r.push(self.lock);
        r.push(self.cache);
        r.push(self.burst);
        r.push(self.data_valid);
        r.push(self.aw_user);
        push_all(&mut r, &self.w_user);
        push_all(&mut r, &self.strb);
        push_words_le(&mut r, &self.data);
        push_le(&mut r, self.addr);
        r.push(self.len);
        r.push(self.id);
        assert(r@ =~= self.byte_layout());
        r
    }
}

impl ToBytes for AxiReadPayload {
    /// Valid, size, region, QoS, protection, lock, length, cache, burst,
    /// user and id, then the address.
    open spec fn byte_layout(&self) -> Seq<u8> {
        seq![
            self.valid,
            self.size,
            self.region,
            self.qos,
            self.prot,
            self.lock,
            self.len,
            self.cache,
            self.burst,
            self.user,
            self.id,
        ] + le_bytes(self.addr)
    }

    fn to_bytes(&self) -> (r: Vec<u8>) {
        let mut r: Vec<u8> = Vec::new();
        r.push(self.valid);
        r.push(self.size);
        r.push(self.region);
        r.push(self.qos);
        r.push(self.prot);
        r.push(self.lock);
        r.push(self.len);
        r.push(self.cache);
        r.push(self.burst);
        r.push(self.user);
        r.push(self.id);
        push_le(&mut r, self.addr);
        assert(r@ =~= self.byte_layout());
        r
    }
}

} // verus!
