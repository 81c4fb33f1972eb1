//! A hash chain together with the plaintext that it indexes.

use vstd::prelude::*;
use crate::hash_chain::{ChainModel, HashChain, HashIterator};
use crate::preflate_input::PreflateInput;
use crate::preflate_parameter_estimator::{hash_config_wf, hash_mask_for, hash_shift_for};

verus! {

/// A plaintext, a cursor into it and the hash chain over what lies
/// before the cursor, as a mathematical value.
pub struct ExtModel {
    pub data: Seq<u8>,
    pub pos: u32,
    pub chain: ChainModel,
}

impl ExtModel {
    /// The cursor is inside the plaintext and the chain covers what lies before it.
    pub open spec fn wf(self) -> bool {
        &&& self.pos <= self.data.len() < u32::MAX
        &&& self.chain.wf(self.data.len() as int, self.pos as int)
    }

    /// Number of bytes from the cursor to the end.
    pub open spec fn remaining(self) -> int {
        self.data.len() - self.pos
    }

    /// The state after the next `len` positions were entered into the chain.
    pub open spec fn update_hash(self, len: u32) -> ExtModel {
        ExtModel {
            chain: self.chain.update(self.data, self.pos as int, len as nat),
            pos: (self.pos + len) as u32,
            ..self
        }
    }

    /// The state after the next `len` positions were passed and only the first entered.
    pub open spec fn skip_hash(self, len: u32) -> ExtModel {
        ExtModel {
            chain: self.chain.skip(self.data, self.pos as int, len as nat),
            pos: (self.pos + len) as u32,
            ..self
        }
    }

    /// The hash of the three bytes at the cursor.
    pub open spec fn cur_hash(self) -> u32 {
        self.chain.hash_with(self.data[self.pos + 2])
    }

    /// The state at the start of `data` for a hash table of `hash_bits` bits.
    pub open spec fn start(data: Seq<u8>, hash_bits: u32) -> ExtModel {
        let empty = HashChain::spec_new(
            hash_shift_for(hash_bits),
            hash_mask_for(hash_bits),
            data.len() as u32,
        );
        ExtModel {
            data,
            pos: 0,
            chain: if data.len() >= 2 {
                empty.roll(data[0]).roll(data[1])
            } else {
                empty
            },
        }
    }
}

/// A hash chain that owns the cursor into its plaintext.
pub struct PreflateHashChainExt<'a> {
    pub chain: HashChain,
    pub input: PreflateInput<'a>,
}

impl<'a> View for PreflateHashChainExt<'a> {
    type V = ExtModel;

    open spec fn view(&self) -> ExtModel {
        ExtModel { data: self.input.data@, pos: self.input.pos, chain: self.chain@ }
    }
}

/// Mask of the rolling hash for a table of `hash_bits` bits.
pub fn hash_mask_of(hash_bits: u32) -> (r: u16)
    requires
        9 <= hash_bits <= 15,
    ensures
        r == hash_mask_for(hash_bits),
{
    if hash_bits == 9 {
        0x1ff
    } else if hash_bits == 10 {
        0x3ff
    } else if hash_bits == 11 {
        0x7ff
    } else if hash_bits == 12 {
        0xfff
    } else if hash_bits == 13 {
        0x1fff
    } else if hash_bits == 14 {
        0x3fff
    } else {
        0x7fff
    }
}

impl<'a> PreflateHashChainExt<'a> {
    /// A chain at the start of `data` with a hash table of `hash_bits` bits.
    pub fn new(data: &'a [u8], hash_bits: u32) -> (r: Self)
        requires
            9 <= hash_bits <= 15,
            data@.len() < u32::MAX,
        ensures
            r@.wf(),
            r@ == ExtModel::start(data@, hash_bits),
    {
        let hash_shift: u32 = (hash_bits + 2) / 3;
        let hash_mask: u16 = hash_mask_of(hash_bits);
        assert(hash_shift == hash_shift_for(hash_bits));
        let mut chain = HashChain::new(hash_shift, hash_mask, data.len() as u32);
        if data.len() >= 2 {
            chain.update_running_hash(data[0]);
            chain.update_running_hash(data[1]);
        }
        PreflateHashChainExt { chain, input: PreflateInput::new(data) }
    }

    /// The plaintext and the cursor.
    pub fn input(&self) -> (r: &PreflateInput<'a>)
        ensures
            *r == self.input,
    {
        &self.input
    }

    /// Enters the next `len` positions into the chain and moves the cursor past them.
    pub fn update_hash(&mut self, len: u32)
        requires
            old(self)@.wf(),
            len <= old(self)@.remaining(),
        ensures
            final(self)@.wf(),
            final(self)@ == old(self)@.update_hash(len),
    {
        self.chain.update_hash(len, &self.input);
        self.input.advance(len);
    }

    /// Moves the cursor past the next `len` positions and enters only the
    /// first of them into the chain.
    pub fn skip_hash(&mut self, len: u32)
        requires
            old(self)@.wf(),
            len <= old(self)@.remaining(),
        ensures
            final(self)@.wf(),
            final(self)@ == old(self)@.skip_hash(len),
    {
        self.chain.skip_hash(len, &self.input);
        self.input.advance(len);
    }

    /// The hash of the three bytes at the cursor.
    pub fn cur_hash(&self) -> (r: u32)
        requires
            self@.wf(),
            self@.remaining() >= 3,
        ensures
            r == self@.cur_hash(),
            r <= self@.chain.hash_mask,
    {
        self.chain.cur_hash(&self.input)
    }

    /// The entry at the head of the chain for `hash`.
    pub fn get_head(&self, hash: u32) -> (r: u32)
        requires
            self@.wf(),
        ensures
            r == self@.chain.head_of(hash),
            r <= self@.pos,
    {
        let m: u32 = self.chain.hash_mask as u32;
        assert(hash & m <= m) by (bit_vector);
        self.chain.get_head(hash)
    }

    /// The depth recorded for `entry`.
    pub fn get_node_depth(&self, entry: u32) -> (r: u32)
        requires
            self@.wf(),
            entry <= self@.data.len(),
        ensures
            r == self@.chain.depth[entry as int],
    {
        self.chain.get_node_depth(entry)
    }

    /// A cursor on the entry of position `pos`, for a search from position
    /// `ref_pos` that follows the chain up to the distance `max_dist`.
    pub fn iterate_from_pos(&self, pos: u32, ref_pos: u32, max_dist: u32) -> (r: HashIterator<'_>)
        requires
            self@.wf(),
            pos < ref_pos,
            self@.pos <= ref_pos <= self@.data.len(),
        ensures
            r.wf(),
            r.chain@ == self@.chain,
            r.ref_pos == ref_pos,
            r.max_dist == max_dist,
            r.cur == pos + 1,
    {
        proof {
            crate::hash_chain::lemma_wf_later(
                self@.chain,
                self@.data.len() as int,
                self@.pos as int,
                ref_pos as int,
            );
        }
        self.chain.iterate_from_pos(pos, ref_pos, max_dist)
    }
}

} // verus!
