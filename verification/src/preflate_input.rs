//! The plaintext and the place up to which it was processed.

use vstd::prelude::*;

verus! {

/// A read-only view of the plaintext with a cursor that only moves forward.
pub struct PreflateInput<'a> {
    pub data: &'a [u8],
    pub pos: u32,
}

impl<'a> PreflateInput<'a> {
    /// The cursor is inside the plaintext, whose positions fit in 32 bits.
    pub open spec fn wf(&self) -> bool {
        self.pos <= self.data@.len() < u32::MAX
    }

    pub fn new(data: &'a [u8]) -> (r: Self)
        requires
            data@.len() < u32::MAX,
        ensures
            r.wf(),
            r.data@ == data@,
            r.pos == 0,
    {
        PreflateInput { data, pos: 0 }
    }

    /// The position of the cursor.
    pub fn pos(&self) -> (r: u32)
        ensures
            r == self.pos,
    {
        self.pos
    }

    /// The length of the plaintext.
    pub fn size(&self) -> (r: u32)
        requires
            self.wf(),
        ensures
            r == self.data@.len(),
    {
        self.data.len() as u32
    }

    /// The number of bytes from the cursor to the end.
    pub fn remaining(&self) -> (r: u32)
        requires
            self.wf(),
        ensures
            r == self.data@.len() - self.pos,
    {
        self.data.len() as u32 - self.pos
    }

    /// The byte that stands `offset` bytes from the cursor.
    pub fn cur_char(&self, offset: i32) -> (r: u8)
        requires
            self.wf(),
            0 <= self.pos + offset < self.data@.len(),
        ensures
            r == self.data@[self.pos + offset],
    {
        let i: i64 = self.pos as i64 + offset as i64;
        self.data[i as usize]
    }

    /// The plaintext from `offset` bytes from the cursor to the end.
    pub fn cur_chars(&self, offset: i32) -> (r: &[u8])
        requires
            self.wf(),
            0 <= self.pos + offset <= self.data@.len(),
        ensures
            r@ == self.data@.skip(self.pos + offset),
    {
        let i: i64 = self.pos as i64 + offset as i64;
        let r = &self.data[i as usize..self.data.len()];
        assert(r@ =~= self.data@.skip(self.pos + offset));
        r
    }

    /// Moves the cursor forward by `n` bytes.
    pub fn advance(&mut self, n: u32)
        requires
            old(self).wf(),
            old(self).pos + n <= old(self).data@.len(),
        ensures
            final(self).wf(),
            final(self).data == old(self).data,
            final(self).pos == old(self).pos + n,
    {
        self.pos = self.pos + n;
    }
}

} // verus!
