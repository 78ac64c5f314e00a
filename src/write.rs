//! Big-endian writes that append to a byte buffer.
use crate::read::{be16, be32, be64};
use vstd::prelude::*;

verus! {

pub open spec fn u16_be(v: u16) -> Seq<u8> {
    seq![(v >> 8u16) as u8, v as u8]
}

pub open spec fn u32_be(v: u32) -> Seq<u8> {
    seq![(v >> 24u32) as u8, (v >> 16u32) as u8, (v >> 8u32) as u8, v as u8]
}

pub open spec fn u64_be(v: u64) -> Seq<u8> {
    u32_be((v >> 32u64) as u32) + u32_be(v as u32)
}

/// A value that has a big-endian byte form.
pub trait ToBeBytes: Sized {
    spec fn be_bytes(&self) -> Seq<u8>;

    fn to_be_bytes(self) -> (r: Vec<u8>)
        ensures
            r@ == self.be_bytes(),
    ;
}

impl ToBeBytes for u8 {
    open spec fn be_bytes(&self) -> Seq<u8> {
        seq![*self]
    }

    fn to_be_bytes(self) -> (r: Vec<u8>) {
        let mut r: Vec<u8> = Vec::new();
        write_u8(&mut r, self);
        r
    }
}

impl ToBeBytes for u16 {
    open spec fn be_bytes(&self) -> Seq<u8> {
        u16_be(*self)
    }

    fn to_be_bytes(self) -> (r: Vec<u8>) {
        let mut r: Vec<u8> = Vec::new();
        write_u16(&mut r, self);
        r
    }
}

impl ToBeBytes for u32 {
    open spec fn be_bytes(&self) -> Seq<u8> {
        u32_be(*self)
    }

    fn to_be_bytes(self) -> (r: Vec<u8>) {
        let mut r: Vec<u8> = Vec::new();
        write_u32(&mut r, self);
        r
    }
}

impl ToBeBytes for u64 {
    open spec fn be_bytes(&self) -> Seq<u8> {
        u64_be(*self)
    }

    fn to_be_bytes(self) -> (r: Vec<u8>) {
        let mut r: Vec<u8> = Vec::new();
        write_u64(&mut r, self);
        r
    }
}

impl ToBeBytes for i32 {
    open spec fn be_bytes(&self) -> Seq<u8> {
        u32_be(*self as u32)
    }

    fn to_be_bytes(self) -> (r: Vec<u8>) {
        let mut r: Vec<u8> = Vec::new();
        write_i32(&mut r, self);
        r
    }
}

impl ToBeBytes for i64 {
    open spec fn be_bytes(&self) -> Seq<u8> {
        u64_be(*self as u64)
    }

    fn to_be_bytes(self) -> (r: Vec<u8>) {
        let mut r: Vec<u8> = Vec::new();
        write_i64(&mut r, self);
        r
    }
}

impl ToBeBytes for Vec<u8> {
    open spec fn be_bytes(&self) -> Seq<u8> {
        self@
    }

    fn to_be_bytes(self) -> (r: Vec<u8>) {
        self
    }
}

/// Appends the big-endian form of `v`.
pub fn write<T: ToBeBytes>(bytes: &mut Vec<u8>, v: T)
    ensures
        final(bytes)@ == old(bytes)@ + v.be_bytes(),
{
    let mut b = v.to_be_bytes();
    bytes.append(&mut b);
}

pub fn write_u8(bytes: &mut Vec<u8>, v: u8)
    ensures
        final(bytes)@ == old(bytes)@ + seq![v],
{
    bytes.push(v);
    assert(bytes@ =~= old(bytes)@ + seq![v]);
}

pub fn write_u16(bytes: &mut Vec<u8>, v: u16)
    ensures
        final(bytes)@ == old(bytes)@ + u16_be(v),
{
    bytes.push((v >> 8u16) as u8);
    bytes.push(v as u8);
    assert(bytes@ =~= old(bytes)@ + u16_be(v));
}

pub fn write_u32(bytes: &mut Vec<u8>, v: u32)
    ensures
        final(bytes)@ == old(bytes)@ + u32_be(v),
{
    bytes.push((v >> 24u32) as u8);
    bytes.push((v >> 16u32) as u8);
    bytes.push((v >> 8u32) as u8);
    bytes.push(v as u8);
    assert(bytes@ =~= old(bytes)@ + u32_be(v));
}

pub fn write_u64(bytes: &mut Vec<u8>, v: u64)
    ensures
        final(bytes)@ == old(bytes)@ + u64_be(v),
{
    write_u32(bytes, (v >> 32u64) as u32);
    write_u32(bytes, v as u32);
    assert(bytes@ =~= old(bytes)@ + u64_be(v));
}

pub fn write_i32(bytes: &mut Vec<u8>, v: i32)
    ensures
        final(bytes)@ == old(bytes)@ + u32_be(v as u32),
{
    write_u32(bytes, v as u32);
}

pub fn write_i64(bytes: &mut Vec<u8>, v: i64)
    ensures
        final(bytes)@ == old(bytes)@ + u64_be(v as u64),
{
    write_u64(bytes, v as u64);
}

/// Appends the bytes of `s` as they stand.
pub fn write_slice(bytes: &mut Vec<u8>, s: &[u8])
    ensures
        final(bytes)@ == old(bytes)@ + s@,
{
    let mut i: usize = 0;
    while i < s.len()
        invariant
            0 <= i <= s@.len(),
            bytes@ == old(bytes)@ + s@.subrange(0, i as int),
        decreases s@.len() - i,
    {
        bytes.push(s[i]);
        i = i + 1;
        assert(bytes@ =~= old(bytes)@ + s@.subrange(0, i as int));
    }
    assert(s@.subrange(0, s@.len() as int) =~= s@);
}

/// A big-endian `u16` reads back as itself, wherever it stands.
pub proof fn lemma_u16_be(pre: Seq<u8>, v: u16, rest: Seq<u8>)
    ensures
        be16(pre + u16_be(v) + rest, pre.len() as int) == v,
{
    let s = pre + u16_be(v) + rest;
    let p = pre.len() as int;
    assert(s[p] == (v >> 8u16) as u8);
    assert(s[p + 1] == v as u8);
    assert(((((v >> 8u16) as u8) as u16) << 8u16) | ((v as u8) as u16) == v) by (bit_vector);
}

/// A big-endian `u32` reads back as itself, wherever it stands.
pub proof fn lemma_u32_be(pre: Seq<u8>, v: u32, rest: Seq<u8>)
    ensures
        be32(pre + u32_be(v) + rest, pre.len() as int) == v,
{
    let s = pre + u32_be(v) + rest;
    let p = pre.len() as int;
    assert(s[p] == (v >> 24u32) as u8);
    assert(s[p + 1] == (v >> 16u32) as u8);
    assert(s[p + 2] == (v >> 8u32) as u8);
    assert(s[p + 3] == v as u8);
    assert(((((v >> 24u32) as u8) as u32) << 24u32) | ((((v >> 16u32) as u8) as u32) << 16u32)
        | ((((v >> 8u32) as u8) as u32) << 8u32) | ((v as u8) as u32) == v) by (bit_vector);
}

/// A big-endian `u64` reads back as itself, wherever it stands.
pub proof fn lemma_u64_be(pre: Seq<u8>, v: u64, rest: Seq<u8>)
    ensures
        be64(pre + u64_be(v) + rest, pre.len() as int) == v,
{
    let hi = (v >> 32u64) as u32;
    let lo = v as u32;
    assert(pre + u64_be(v) + rest =~= pre + u32_be(hi) + (u32_be(lo) + rest));
    lemma_u32_be(pre, hi, u32_be(lo) + rest);
    assert(pre + u64_be(v) + rest =~= (pre + u32_be(hi)) + u32_be(lo) + rest);
    lemma_u32_be(pre + u32_be(hi), lo, rest);
    assert((((v >> 32u64) as u32) as u64) << 32u64 | ((v as u32) as u64) == v) by (bit_vector);
}

} // verus!
