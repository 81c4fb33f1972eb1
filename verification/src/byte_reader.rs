//! A cursor over bytes in memory that reads little-endian numbers.

use vstd::prelude::*;
use vstd::arithmetic::power2::{lemma_pow2_adds, lemma_pow2_pos, lemma_pow2_unfold, lemma2_to64, pow2};
use crate::preflate_error::PreflateError;

verus! {

/// The number whose little-endian form are the first `n` bytes of `bytes`.
pub open spec fn le_value(bytes: Seq<u8>, n: nat) -> nat
    decreases n,
{
    if n == 0 {
        0
    } else {
        bytes[0] as nat + 256 * le_value(bytes.skip(1), (n - 1) as nat)
    }
}

/// The number of `n` bytes that stands in little-endian form at place `at` of `data`.
pub open spec fn le_at(data: Seq<u8>, at: int, n: nat) -> nat {
    le_value(data.skip(at), n)
}

/// A number of `n` bytes is less than 256 to the power of `n`.
pub proof fn lemma_le_value_bound(bytes: Seq<u8>, n: nat)
    ensures
        le_value(bytes, n) < pow2(8 * n),
    decreases n,
{
    lemma2_to64();
    if n == 0 {
    } else {
        lemma_le_value_bound(bytes.skip(1), (n - 1) as nat);
        lemma_pow2_adds(8, (8 * (n - 1)) as nat);
        let rest = le_value(bytes.skip(1), (n - 1) as nat);
        let high = pow2((8 * (n - 1)) as nat);
        assert(256 * rest <= 256 * (high - 1)) by (nonlinear_arith)
            requires
                rest <= high - 1,
        ;
    }
}

/// The number in the first `pos + k` bytes is the number in the first
/// `pos` bytes with the number in the `k` bytes after them above it.
pub proof fn lemma_le_value_split(data: Seq<u8>, pos: nat, k: nat)
    requires
        pos + k <= data.len(),
    ensures
        le_value(data, pos + k) == le_value(data, pos) + pow2(8 * pos) * le_at(data, pos as int, k),
    decreases pos,
{
    lemma2_to64();
    if pos == 0 {
        assert(data.skip(0) =~= data);
        assert(pow2(0) == 1);
        assert(le_value(data, 0) == 0);
        assert(le_at(data, 0, k) == le_value(data, k));
        assert(pow2((8 * pos) as nat) * le_at(data, pos as int, k) == le_value(data, k)) by {
            assert(pow2((8 * pos) as nat) == 1);
            assert(1 * le_value(data, k) == le_value(data, k));
        }
    } else {
        let rest = data.skip(1);
        lemma_le_value_split(rest, (pos - 1) as nat, k);
        assert(rest.skip(pos - 1) =~= data.skip(pos as int));
        lemma_pow2_adds(8, (8 * (pos - 1)) as nat);
        let low = le_value(rest, (pos - 1) as nat);
        let high = le_at(data, pos as int, k);
        let p = pow2((8 * (pos - 1)) as nat);
        assert(le_at(rest, pos - 1, k) == high);
        assert(le_value(rest, (pos - 1 + k) as nat) == low + p * high);
        assert(le_value(data, pos + k) == data[0] as nat + 256 * le_value(
            rest,
            (pos + k - 1) as nat,
        ));
        assert(le_value(data, pos) == data[0] as nat + 256 * low);
        assert(pow2(8 * pos) == 256 * p);
        assert(256 * (low + p * high) == 256 * low + (256 * p) * high) by (nonlinear_arith);
        assert(pow2(8 * pos) * high == (256 * p) * high);
        assert(le_value(data, pos + k) == le_value(data, pos) + pow2(8 * pos) * high);
    }
}

/// `byteorder::LittleEndian::read_u16`: the first two bytes of `buf` as
/// a number in little-endian form. It panics on a shorter slice.
#[verifier::external_body]
fn le_u16(buf: &[u8]) -> (r: u16)
    requires
        buf@.len() >= 2,
    ensures
        r == le_value(buf@, 2),
{
    <byteorder::LittleEndian as byteorder::ByteOrder>::read_u16(buf)
}

/// `byteorder::LittleEndian::read_u32`: the first four bytes of `buf` as
/// a number in little-endian form. It panics on a shorter slice.
#[verifier::external_body]
fn le_u32(buf: &[u8]) -> (r: u32)
    requires
        buf@.len() >= 4,
    ensures
        r == le_value(buf@, 4),
{
    <byteorder::LittleEndian as byteorder::ByteOrder>::read_u32(buf)
}

/// `byteorder::LittleEndian::read_u64`: the first eight bytes of `buf` as
/// a number in little-endian form. It panics on a shorter slice.
#[verifier::external_body]
fn le_u64(buf: &[u8]) -> (r: u64)
    requires
        buf@.len() >= 8,
    ensures
        r == le_value(buf@, 8),
{
    <byteorder::LittleEndian as byteorder::ByteOrder>::read_u64(buf)
}

/// Bytes in memory and the place of the next read.
#[derive(Clone, Copy)]
pub struct ByteReader<'a> {
    pub data: &'a [u8],
    pub pos: usize,
}

impl<'a> ByteReader<'a> {
    /// Number of bytes from the place of the next read to the end.
    pub open spec fn available(&self) -> int {
        if self.pos <= self.data@.len() {
            self.data@.len() - self.pos
        } else {
            0
        }
    }

    /// A reader at the start of `data`.
    pub fn new(data: &'a [u8]) -> (r: Self)
        ensures
            r.data@ == data@,
            r.pos == 0,
    {
        ByteReader { data, pos: 0 }
    }

    /// The place of the next read.
    pub fn stream_position(&self) -> (r: u64)
        ensures
            r == self.pos,
    {
        self.pos as u64
    }

    /// The bytes from the place of the next read on, if there are `n` of them.
    fn take(&mut self, n: usize) -> (r: Result<&'a [u8], PreflateError>)
        requires
            n >= 1,
        ensures
            final(self).data == old(self).data,
            match r {
                Ok(bytes) => {
                    &&& n <= old(self).available()
                    &&& bytes@ == old(self).data@.skip(old(self).pos as int)
                    &&& final(self).pos == old(self).pos + n
                },
                Err(e) => {
                    &&& n > old(self).available()
                    &&& e == PreflateError::EndOfStream
                    &&& final(self).pos == old(self).pos
                },
            },
    {
        let len: usize = self.data.len();
        if self.pos > len || len - self.pos < n {
            return Err(PreflateError::EndOfStream);
        }
        let data: &'a [u8] = self.data;
        let bytes = &data[self.pos..len];
        assert(bytes@ =~= self.data@.skip(self.pos as int));
        self.pos = self.pos + n;
        Ok(bytes)
    }

    /// Reads one byte.
    pub fn read_u8(&mut self) -> (r: Result<u8, PreflateError>)
        ensures
            final(self).data == old(self).data,
            match r {
                Ok(v) => 1 <= old(self).available() && v == old(self).data@[old(self).pos as int]
                    && final(self).pos == old(self).pos + 1,
                Err(e) => old(self).available() < 1 && e == PreflateError::EndOfStream
                    && final(self).pos == old(self).pos,
            },
    {
        match self.take(1) {
            Ok(bytes) => Ok(bytes[0]),
            Err(e) => Err(e),
        }
    }

    /// Reads a number of two bytes in little-endian form.
    pub fn read_u16(&mut self) -> (r: Result<u16, PreflateError>)
        ensures
            final(self).data == old(self).data,
            match r {
                Ok(v) => 2 <= old(self).available() && v == le_at(
                    old(self).data@,
                    old(self).pos as int,
                    2,
                ) && final(self).pos == old(self).pos + 2,
                Err(e) => old(self).available() < 2 && e == PreflateError::EndOfStream
                    && final(self).pos == old(self).pos,
            },
    {
        match self.take(2) {
            Ok(bytes) => Ok(le_u16(bytes)),
            Err(e) => Err(e),
        }
    }

    /// Reads a number of four bytes in little-endian form.
    pub fn read_u32(&mut self) -> (r: Result<u32, PreflateError>)
        ensures
            final(self).data == old(self).data,
            match r {
                Ok(v) => 4 <= old(self).available() && v == le_at(
                    old(self).data@,
                    old(self).pos as int,
                    4,
                ) && final(self).pos == old(self).pos + 4,
                Err(e) => old(self).available() < 4 && e == PreflateError::EndOfStream
                    && final(self).pos == old(self).pos,
            },
    {
        match self.take(4) {
            Ok(bytes) => Ok(le_u32(bytes)),
            Err(e) => Err(e),
        }
    }

    /// Reads a number of eight bytes in little-endian form.
    pub fn read_u64(&mut self) -> (r: Result<u64, PreflateError>)
        ensures
            final(self).data == old(self).data,
            match r {
                Ok(v) => 8 <= old(self).available() && v == le_at(
                    old(self).data@,
                    old(self).pos as int,
                    8,
                ) && final(self).pos == old(self).pos + 8,
                Err(e) => old(self).available() < 8 && e == PreflateError::EndOfStream
                    && final(self).pos == old(self).pos,
            },
    {
        match self.take(8) {
            Ok(bytes) => Ok(le_u64(bytes)),
            Err(e) => Err(e),
        }
    }

    /// Moves the place of the next read by `offset` bytes. The place may
    /// lie behind the last byte, where every read fails, but not before
    /// the first.
    pub fn seek_current(&mut self, offset: i64) -> (r: Result<(), PreflateError>)
        ensures
            final(self).data == old(self).data,
            match r {
                Ok(()) => 0 <= old(self).pos + offset <= usize::MAX && final(self).pos
                    == old(self).pos + offset,
                Err(e) => !(0 <= old(self).pos + offset <= usize::MAX) && e
                    == PreflateError::InvalidSeek && final(self).pos == old(self).pos,
            },
    {
        if offset >= 0 {
            let forward: u64 = offset as u64;
            if forward > (usize::MAX - self.pos) as u64 {
                return Err(PreflateError::InvalidSeek);
            }
            self.pos = self.pos + forward as usize;
        } else {
            let back: u64 = (-(offset + 1)) as u64 + 1;
            if back > self.pos as u64 {
                return Err(PreflateError::InvalidSeek);
            }
            self.pos = self.pos - back as usize;
        }
        Ok(())
    }
}

} // verus!
