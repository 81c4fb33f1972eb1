//! The dictionary of the match search: a rolling hash over three bytes and,
//! for each hash value, the chain of the positions entered under it.
//!
//! Positions are kept as entries: the entry of position `p` is `p + 1`, and
//! the entry 0 stands for no position. An empty chain so behaves like a
//! position just before the plaintext, which lies out of reach of every search.

use vstd::prelude::*;
use crate::bit_helper::{DebugHash, checksum_fold, checksum_step};
use crate::preflate_input::PreflateInput;
use crate::preflate_parameter_estimator::{hash_config_wf, hash_shift_for, hash_mask_for};

verus! {

/// Depth recorded for a position that was passed over without being entered.
pub const SKIPPED_DEPTH: u32 = 0xffff_ffff;

/// The rolling hash `h` after the byte `b`.
pub open spec fn hash_append(h: u32, b: u8, shift: u32, mask: u16) -> u32 {
    ((h << shift) ^ (b as u32)) & (mask as u32)
}

/// The rolling hash `h` after the bytes of `data` from `from` up to `to`.
pub open spec fn hash_roll(h: u32, data: Seq<u8>, from: int, to: int, shift: u32, mask: u16) -> u32
    decreases to - from,
{
    if from >= to {
        h
    } else {
        hash_append(hash_roll(h, data, from, to - 1, shift, mask), data[to - 1], shift, mask)
    }
}

/// The rolling hash `h` after the byte `b`.
pub fn append_hash(h: u32, b: u8, shift: u32, mask: u16) -> (r: u32)
    requires
        shift < 32,
    ensures
        r == hash_append(h, b, shift, mask),
        r <= mask,
{
    let x: u32 = (h << shift) ^ (b as u32);
    let m: u32 = mask as u32;
    let r: u32 = x & m;
    assert(r <= m) by (bit_vector)
        requires
            r == x & m,
    ;
    r
}

/// The state of a hash chain as a mathematical value.
pub struct ChainModel {
    /// For each hash value the entry of the newest position under it.
    pub head: Seq<u32>,
    /// For each entry the entry that was the newest under its hash before it.
    pub prev: Seq<u32>,
    /// For each entry the number of entries of its chain up to itself.
    pub depth: Seq<u32>,
    pub hash_shift: u32,
    pub hash_mask: u16,
    pub running_hash: u32,
}

impl ChainModel {
    /// The chain is one for a plaintext of `size` bytes of which the
    /// positions before `limit` were passed: every chain leads to ever
    /// smaller entries, and no entry lies at or after `limit`.
    pub open spec fn wf(self, size: int, limit: int) -> bool {
        &&& 0 <= limit <= size < u32::MAX
        &&& hash_config_wf(self.hash_shift, self.hash_mask)
        &&& self.head.len() == self.hash_mask + 1
        &&& self.prev.len() == size + 1
        &&& self.depth.len() == size + 1
        &&& self.running_hash <= self.hash_mask
        &&& forall|h: int| 0 <= h < self.head.len() ==> #[trigger] self.head[h] <= limit
        &&& forall|s: int| 0 <= s < self.prev.len() ==> #[trigger] self.prev[s] <= s
        &&& forall|s: int| 0 < s < self.prev.len() ==> #[trigger] self.prev[s] < s
    }

    /// The chain after the byte `b` went into the rolling hash.
    pub open spec fn roll(self, b: u8) -> ChainModel {
        ChainModel {
            running_hash: hash_append(self.running_hash, b, self.hash_shift, self.hash_mask),
            ..self
        }
    }

    /// The hash under which position `pos` is entered, where `b` is the
    /// third byte from that position.
    pub open spec fn hash_with(self, b: u8) -> u32 {
        hash_append(self.running_hash, b, self.hash_shift, self.hash_mask)
    }

    /// The chain after position `pos` was entered, where `b` is the third
    /// byte from that position.
    pub open spec fn insert(self, pos: int, b: u8) -> ChainModel {
        let h = self.hash_with(b);
        ChainModel {
            running_hash: h,
            head: self.head.update(h as int, (pos + 1) as u32),
            prev: self.prev.update(pos + 1, self.head[h as int]),
            depth: self.depth.update(
                pos + 1,
                self.depth[self.head[h as int] as int].wrapping_add(1),
            ),
            ..self
        }
    }

    /// The chain after the `len` positions from `pos` on were entered, as
    /// far as three bytes of `data` stand at them.
    pub open spec fn update(self, data: Seq<u8>, pos: int, len: nat) -> ChainModel
        decreases len,
    {
        if len == 0 || pos + 2 >= data.len() {
            self
        } else {
            self.insert(pos, data[pos + 2]).update(data, pos + 1, (len - 1) as nat)
        }
    }

    /// The chain with the depth of the entries from `from` up to `to` marked as skipped.
    pub open spec fn mark_skipped(self, from: int, to: int) -> ChainModel {
        ChainModel {
            depth: Seq::new(
                self.depth.len(),
                |s: int|
                    if from <= s < to {
                        SKIPPED_DEPTH
                    } else {
                        self.depth[s]
                    },
            ),
            ..self
        }
    }

    /// The chain after `len` positions from `pos` on were passed of which
    /// only the first was entered. The rolling hash is made ready for the
    /// position after them.
    pub open spec fn skip(self, data: Seq<u8>, pos: int, len: nat) -> ChainModel {
        if pos + 2 >= data.len() || len == 0 {
            self
        } else {
            let entered = self.insert(pos, data[pos + 2]).mark_skipped(pos + 2, pos + len + 1);
            if pos + len + 1 < data.len() {
                entered.roll(data[pos + len]).roll(data[pos + len + 1])
            } else if pos + len < data.len() {
                entered.roll(data[pos + len])
            } else {
                entered
            }
        }
    }

    /// The entry at the head of the chain for `hash`.
    pub open spec fn head_of(self, hash: u32) -> u32 {
        self.head[(hash & (self.hash_mask as u32)) as int]
    }
}

/// The entry `target` is on the chain that starts with the entry `cur`.
pub open spec fn on_chain(prev: Seq<u32>, cur: u32, target: u32) -> bool
    decreases cur,
{
    if cur == 0 || cur >= prev.len() {
        false
    } else if cur == target {
        true
    } else if prev[cur as int] < cur {
        on_chain(prev, prev[cur as int], target)
    } else {
        false
    }
}

/// Distance from the position `ref_pos` back to the entry `cur`.
pub open spec fn entry_dist(cur: u32, ref_pos: u32) -> u32 {
    (ref_pos + 1 - cur) as u32
}

/// The distances from `ref_pos` to the entries of the chain that starts
/// with the entry `cur`, as far as they do not exceed `max_dist`.
pub open spec fn chain_dists(prev: Seq<u32>, cur: u32, ref_pos: u32, max_dist: u32) -> Seq<u32>
    decreases cur,
{
    if cur == 0 || cur >= prev.len() || cur > ref_pos || ref_pos + 1 - cur > max_dist {
        Seq::empty()
    } else if prev[cur as int] < cur {
        seq![entry_dist(cur, ref_pos)].add(chain_dists(prev, prev[cur as int], ref_pos, max_dist))
    } else {
        seq![entry_dist(cur, ref_pos)]
    }
}

/// The distances of a chain lie between 1 and the bound and grow strictly.
pub proof fn lemma_chain_dists_bounds(prev: Seq<u32>, cur: u32, ref_pos: u32, max_dist: u32)
    ensures
        forall|i: int|
            0 <= i < chain_dists(prev, cur, ref_pos, max_dist).len() ==> 1 <= (
            #[trigger] chain_dists(prev, cur, ref_pos, max_dist)[i]) <= max_dist,
        forall|i: int|
            0 <= i < chain_dists(prev, cur, ref_pos, max_dist).len() ==> (#[trigger] chain_dists(
                prev,
                cur,
                ref_pos,
                max_dist,
            )[i]) >= ref_pos + 1 - cur,
        forall|i: int, j: int|
            0 <= i < j < chain_dists(prev, cur, ref_pos, max_dist).len() ==> (#[trigger] chain_dists(
                prev,
                cur,
                ref_pos,
                max_dist,
            )[i]) < (#[trigger] chain_dists(prev, cur, ref_pos, max_dist)[j]),
        chain_dists(prev, cur, ref_pos, max_dist).len() <= cur,
    decreases cur,
{
    let d = chain_dists(prev, cur, ref_pos, max_dist);
    if cur == 0 || cur >= prev.len() || cur > ref_pos || ref_pos + 1 - cur > max_dist {
    } else if prev[cur as int] < cur {
        let rest = chain_dists(prev, prev[cur as int], ref_pos, max_dist);
        lemma_chain_dists_bounds(prev, prev[cur as int], ref_pos, max_dist);
        assert forall|i: int| 0 <= i < d.len() implies 1 <= (#[trigger] d[i]) <= max_dist && d[i]
            >= ref_pos + 1 - cur by {
            if i > 0 {
                assert(d[i] == rest[i - 1]);
            }
        }
        assert forall|i: int, j: int| 0 <= i < j < d.len() implies (#[trigger] d[i]) < (
        #[trigger] d[j]) by {
            assert(d[j] == rest[j - 1]);
            if i > 0 {
                assert(d[i] == rest[i - 1]);
            }
        }
    } else {
    }
}

/// The hash table and its chains.
pub struct HashChain {
    pub head: Vec<u32>,
    pub prev: Vec<u32>,
    pub chain_depth: Vec<u32>,
    pub hash_shift: u32,
    pub hash_mask: u16,
    pub running_hash: u32,
}

impl View for HashChain {
    type V = ChainModel;

    open spec fn view(&self) -> ChainModel {
        ChainModel {
            head: self.head@,
            prev: self.prev@,
            depth: self.chain_depth@,
            hash_shift: self.hash_shift,
            hash_mask: self.hash_mask,
            running_hash: self.running_hash,
        }
    }
}

/// The shift of a well-formed hash configuration is small.
pub proof fn lemma_hash_config(hash_shift: u32, hash_mask: u16)
    requires
        hash_config_wf(hash_shift, hash_mask),
    ensures
        3 <= hash_shift <= 5,
        0x1ff <= hash_mask <= 0x7fff,
{
    let bits = choose|bits: u32|
        9 <= bits <= 15 && hash_shift == #[trigger] hash_shift_for(bits) && hash_mask
            == hash_mask_for(bits);
    assert(hash_shift == hash_shift_for(bits));
}

impl HashChain {
    /// The empty chain for a plaintext of `size` bytes.
    pub open spec fn spec_new(hash_shift: u32, hash_mask: u16, size: u32) -> ChainModel {
        ChainModel {
            head: Seq::new(hash_mask as nat + 1, |i: int| 0u32),
            prev: Seq::new(size as nat + 1, |i: int| 0u32),
            depth: Seq::new(size as nat + 1, |i: int| 0u32),
            hash_shift,
            hash_mask,
            running_hash: 0,
        }
    }

    /// An empty chain for a plaintext of `size` bytes.
    pub fn new(hash_shift: u32, hash_mask: u16, size: u32) -> (r: Self)
        requires
            hash_config_wf(hash_shift, hash_mask),
            size < u32::MAX,
        ensures
            r@.wf(size as int, 0),
            r@ == Self::spec_new(hash_shift, hash_mask, size),
    {
        let head: Vec<u32> = vec![0u32; hash_mask as usize + 1];
        let prev: Vec<u32> = vec![0u32; size as usize + 1];
        let chain_depth: Vec<u32> = vec![0u32; size as usize + 1];
        let r = HashChain { head, prev, chain_depth, hash_shift, hash_mask, running_hash: 0 };
        assert(r@.head =~= Seq::new(hash_mask as nat + 1, |i: int| 0u32));
        assert(r@.prev =~= Seq::new(size as nat + 1, |i: int| 0u32));
        assert(r@.depth =~= Seq::new(size as nat + 1, |i: int| 0u32));
        r
    }

    /// Takes one byte into the rolling hash.
    pub fn update_running_hash(&mut self, b: u8)
        requires
            hash_config_wf(old(self).hash_shift, old(self).hash_mask),
        ensures
            final(self)@ == old(self)@.roll(b),
            final(self).running_hash <= final(self).hash_mask,
    {
        proof {
            lemma_hash_config(self.hash_shift, self.hash_mask);
        }
        self.running_hash = append_hash(self.running_hash, b, self.hash_shift, self.hash_mask);
    }

    /// Enters position `pos`, where `b` is the third byte from that position.
    fn insert(&mut self, pos: u32, b: u8)
        requires
            old(self)@.wf(old(self)@.prev.len() - 1, pos as int),
            pos < old(self)@.prev.len() - 1,
        ensures
            final(self)@ == old(self)@.insert(pos as int, b),
            final(self)@.wf(old(self)@.prev.len() - 1, pos + 1),
    {
        proof {
            lemma_hash_config(self.hash_shift, self.hash_mask);
        }
        let h: u32 = append_hash(self.running_hash, b, self.hash_shift, self.hash_mask);
        let old_head: u32 = self.head[h as usize];
        let s: usize = pos as usize + 1;
        self.chain_depth[s] = self.chain_depth[old_head as usize].wrapping_add(1);
        self.prev[s] = old_head;
        self.head[h as usize] = pos + 1;
        self.running_hash = h;
    }

    /// Enters the `length` positions from the cursor of `input` on into
    /// their chains, as far as three bytes stand at them.
    pub fn update_hash(&mut self, length: u32, input: &PreflateInput)
        requires
            input.wf(),
            old(self)@.wf(input.data@.len() as int, input.pos as int),
            input.pos + length <= input.data@.len(),
        ensures
            final(self)@ == old(self)@.update(input.data@, input.pos as int, length as nat),
            final(self)@.wf(input.data@.len() as int, input.pos + length),
            final(self).hash_shift == old(self).hash_shift,
            final(self).hash_mask == old(self).hash_mask,
    {
        let size: u32 = input.size();
        let pos: u32 = input.pos();
        let mut i: u32 = 0;
        while i < length && size - pos - i > 2
            invariant
                input.wf(),
                size == input.data@.len(),
                pos == input.pos,
                i <= length,
                pos + length <= size,
                self@.wf(size as int, pos + i),
                self.hash_shift == old(self).hash_shift,
                self.hash_mask == old(self).hash_mask,
                old(self)@.update(input.data@, pos as int, length as nat) == self@.update(
                    input.data@,
                    pos + i,
                    (length - i) as nat,
                ),
            decreases length - i,
        {
            let b: u8 = input.data[(pos + i + 2) as usize];
            self.insert(pos + i, b);
            i += 1;
        }
        proof {
            lemma_wf_later(self@, size as int, pos + i, pos + length);
        }
    }

    /// Passes the `length` positions from the cursor of `input` on and
    /// enters only the first of them. The rolling hash is made ready for
    /// the position after them.
    pub fn skip_hash(&mut self, length: u32, input: &PreflateInput)
        requires
            input.wf(),
            old(self)@.wf(input.data@.len() as int, input.pos as int),
            input.pos + length <= input.data@.len(),
        ensures
            final(self)@ == old(self)@.skip(input.data@, input.pos as int, length as nat),
            final(self)@.wf(input.data@.len() as int, input.pos + length),
    {
        let size: u32 = input.size();
        let pos: u32 = input.pos();
        if size - pos > 2 && length > 0 {
            self.insert(pos, input.data[(pos + 2) as usize]);
            let ghost entered = self@;
            let mut i: u32 = 1;
            assert(self@.depth =~= entered.mark_skipped(pos + 2, pos + 2).depth);
            while i < length
                invariant
                    1 <= i <= length,
                    pos + length <= size,
                    size < u32::MAX,
                    self@.wf(size as int, pos + 1),
                    self@ == entered.mark_skipped(pos + 2, pos + i + 1),
                decreases length - i,
            {
                self.chain_depth[(pos + i + 1) as usize] = SKIPPED_DEPTH;
                assert(self@.depth =~= entered.mark_skipped(pos + 2, pos + i + 2).depth);
                i += 1;
            }
            if size - pos > length {
                self.update_running_hash(input.data[(pos + length) as usize]);
                if size - pos - length > 1 {
                    self.update_running_hash(input.data[(pos + length + 1) as usize]);
                }
            }
            proof {
                lemma_wf_later(self@, size as int, pos + 1, pos + length);
            }
        }
    }

    /// The hash of the three bytes at the cursor of `input`.
    pub fn cur_hash(&self, input: &PreflateInput) -> (r: u32)
        requires
            input.wf(),
            hash_config_wf(self.hash_shift, self.hash_mask),
            input.pos + 3 <= input.data@.len(),
        ensures
            r == self@.hash_with(input.data@[input.pos + 2]),
            r <= self.hash_mask,
    {
        proof {
            lemma_hash_config(self.hash_shift, self.hash_mask);
        }
        append_hash(
            self.running_hash,
            input.data[input.pos as usize + 2],
            self.hash_shift,
            self.hash_mask,
        )
    }

    /// The hash of the three bytes one after the cursor of `input`.
    pub fn cur_plus_1_hash(&self, input: &PreflateInput) -> (r: u32)
        requires
            input.wf(),
            hash_config_wf(self.hash_shift, self.hash_mask),
            input.pos + 4 <= input.data@.len(),
        ensures
            r == self@.roll(input.data@[input.pos + 2]).hash_with(input.data@[input.pos + 3]),
            r <= self.hash_mask,
    {
        proof {
            lemma_hash_config(self.hash_shift, self.hash_mask);
        }
        let h: u32 = append_hash(
            self.running_hash,
            input.data[input.pos as usize + 2],
            self.hash_shift,
            self.hash_mask,
        );
        append_hash(h, input.data[input.pos as usize + 3], self.hash_shift, self.hash_mask)
    }

    /// Two hashes name the same chain.
    pub fn hash_equal(&self, a: u32, b: u32) -> (r: bool)
        ensures
            r == (a & (self.hash_mask as u32) == b & (self.hash_mask as u32)),
    {
        (a & (self.hash_mask as u32)) == (b & (self.hash_mask as u32))
    }

    /// The entry at the head of the chain for `hash`.
    pub fn get_head(&self, hash: u32) -> (r: u32)
        requires
            self.head@.len() == self.hash_mask + 1,
        ensures
            r == self@.head_of(hash),
    {
        let m: u32 = self.hash_mask as u32;
        let h: u32 = hash & m;
        assert(h <= m) by (bit_vector)
            requires
                h == hash & m,
        ;
        self.head[h as usize]
    }

    /// The depth recorded for `entry`.
    pub fn get_node_depth(&self, entry: u32) -> (r: u32)
        requires
            entry < self.chain_depth@.len(),
        ensures
            r == self@.depth[entry as int],
    {
        self.chain_depth[entry as usize]
    }

    /// Adds the rolling hash and the heads of all chains to `checksum`.
    pub fn checksum(&self, checksum: &mut DebugHash)
        ensures
            final(checksum).hash == checksum_fold(
                checksum_step(old(checksum).hash, self.running_hash as u64),
                self.head@,
            ),
    {
        checksum.update(self.running_hash as u64);
        checksum.update_slice(self.head.as_slice());
    }

    /// A cursor on the head of the chain for `hash`, for a search from
    /// position `ref_pos` that follows the chain up to the distance `max_dist`.
    pub fn iterate_from_head(&self, hash: u32, ref_pos: u32, max_dist: u32) -> (r: HashIterator<'_>)
        requires
            self@.wf(self@.prev.len() - 1, ref_pos as int),
        ensures
            r.wf(),
            r.chain == self,
            r.ref_pos == ref_pos,
            r.max_dist == max_dist,
            r.cur == self@.head_of(hash),
    {
        let cur: u32 = self.get_head(hash);
        let m: u32 = self.hash_mask as u32;
        assert(hash & m <= m) by (bit_vector);
        let is_valid: bool = cur > 0 && ref_pos + 1 - cur <= max_dist;
        HashIterator { chain: self, ref_pos, max_dist, cur, is_valid }
    }

    /// A cursor on the entry of position `pos`, for a search from position
    /// `ref_pos` that follows the chain up to the distance `max_dist`.
    pub fn iterate_from_pos(&self, pos: u32, ref_pos: u32, max_dist: u32) -> (r: HashIterator<'_>)
        requires
            self@.wf(self@.prev.len() - 1, ref_pos as int),
            pos < ref_pos,
        ensures
            r.wf(),
            r.chain == self,
            r.ref_pos == ref_pos,
            r.max_dist == max_dist,
            r.cur == pos + 1,
    {
        let cur: u32 = pos + 1;
        let is_valid: bool = ref_pos + 1 - cur <= max_dist;
        HashIterator { chain: self, ref_pos, max_dist, cur, is_valid }
    }
}

/// A chain that is well-formed for a limit is so for every later limit.
pub proof fn lemma_wf_later(m: ChainModel, size: int, limit: int, later: int)
    requires
        m.wf(size, limit),
        limit <= later <= size,
    ensures
        m.wf(size, later),
{
}

/// A cursor on one entry of a hash chain.
pub struct HashIterator<'a> {
    pub chain: &'a HashChain,
    pub ref_pos: u32,
    pub max_dist: u32,
    pub cur: u32,
    pub is_valid: bool,
}

impl<'a> HashIterator<'a> {
    /// The cursor stands on an entry before the position of the search, or
    /// on none, and knows whether that entry is in reach.
    pub open spec fn wf(&self) -> bool {
        &&& self.chain@.wf(self.chain@.prev.len() - 1, self.ref_pos as int)
        &&& self.cur <= self.ref_pos
        &&& self.is_valid == (self.cur > 0 && self.spec_dist() <= self.max_dist)
    }

    /// Distance from the position of the search to the entry under the cursor.
    pub open spec fn spec_dist(&self) -> u32 {
        entry_dist(self.cur, self.ref_pos)
    }

    /// The distances that the cursor yields from here on.
    pub open spec fn dists(&self) -> Seq<u32> {
        chain_dists(self.chain@.prev, self.cur, self.ref_pos, self.max_dist)
    }

    /// The entry under the cursor is a position in reach.
    pub fn valid(&self) -> (r: bool)
        requires
            self.wf(),
        ensures
            r == self.is_valid,
            r == (self.dists().len() > 0),
            r ==> self.dists()[0] == self.spec_dist(),
    {
        self.is_valid
    }

    /// Distance from the position of the search to the entry under the cursor.
    pub fn dist(&self) -> (r: u32)
        requires
            self.wf(),
        ensures
            r == self.spec_dist(),
            r >= 1,
    {
        self.ref_pos + 1 - self.cur
    }

    /// The entry under the cursor.
    pub fn pos(&self) -> (r: u32)
        ensures
            r == self.cur,
    {
        self.cur
    }

    /// The depth recorded for the entry under the cursor.
    pub fn depth(&self) -> (r: u32)
        requires
            self.wf(),
        ensures
            r == self.chain@.depth[self.cur as int],
    {
        self.chain.chain_depth[self.cur as usize]
    }

    /// Moves the cursor to the next entry of the chain and says whether it is in reach.
    pub fn next(&mut self) -> (r: bool)
        requires
            old(self).wf(),
        ensures
            final(self).wf(),
            final(self).chain == old(self).chain,
            final(self).ref_pos == old(self).ref_pos,
            final(self).max_dist == old(self).max_dist,
            final(self).cur == old(self).chain@.prev[old(self).cur as int],
            r == final(self).is_valid,
            old(self).cur > 0 ==> final(self).cur < old(self).cur,
            old(self).is_valid ==> final(self).dists() == old(self).dists().skip(1),
    {
        self.cur = self.chain.prev[self.cur as usize];
        self.is_valid = self.cur > 0 && self.ref_pos + 1 - self.cur <= self.max_dist;
        proof {
            if old(self).is_valid {
                assert(self.dists() =~= old(self).dists().skip(1));
            }
        }
        self.is_valid
    }
}

/// Whether an entry is on a chain depends on the entries up to the head
/// of the chain only.
pub proof fn lemma_on_chain_agrees(older: Seq<u32>, newer: Seq<u32>, cur: u32, target: u32)
    requires
        older.len() == newer.len(),
        forall|s: int| 0 <= s <= cur && s < older.len() ==> older[s] == newer[s],
    ensures
        on_chain(older, cur, target) == on_chain(newer, cur, target),
    decreases cur,
{
    if cur == 0 || cur >= older.len() {
    } else if cur == target {
    } else if older[cur as int] < cur {
        lemma_on_chain_agrees(older, newer, older[cur as int], target);
    }
}

/// The rolling hash over a run of bytes is the rolling hash over all but
/// the first of them, begun with the first.
pub proof fn lemma_hash_roll_first(h: u32, data: Seq<u8>, from: int, to: int, shift: u32, mask: u16)
    requires
        from < to,
    ensures
        hash_roll(h, data, from, to, shift, mask) == hash_roll(
            hash_append(h, data[from], shift, mask),
            data,
            from + 1,
            to,
            shift,
            mask,
        ),
    decreases to - from,
{
    if from + 1 < to {
        lemma_hash_roll_first(h, data, from, to - 1, shift, mask);
    } else {
        assert(hash_roll(h, data, from, from, shift, mask) == h);
        assert(hash_roll(
            hash_append(h, data[from], shift, mask),
            data,
            from + 1,
            from + 1,
            shift,
            mask,
        ) == hash_append(h, data[from], shift, mask));
    }
}

/// An entry that is on the chain of a hash stays on it while later
/// positions are entered.
pub proof fn lemma_update_keeps_chain(
    m: ChainModel,
    data: Seq<u8>,
    pos: int,
    len: nat,
    hash: int,
    target: u32,
)
    requires
        m.wf(data.len() as int, pos),
        pos + len <= data.len(),
        0 <= hash < m.head.len(),
        target <= pos,
        on_chain(m.prev, m.head[hash], target),
    ensures
        on_chain(m.update(data, pos, len).prev, m.update(data, pos, len).head[hash], target),
        m.update(data, pos, len).wf(data.len() as int, pos + len),
        m.update(data, pos, len).head.len() == m.head.len(),
        m.update(data, pos, len).hash_shift == m.hash_shift,
        m.update(data, pos, len).hash_mask == m.hash_mask,
    decreases len,
{
    if len == 0 || pos + 2 >= data.len() {
        lemma_wf_later(m, data.len() as int, pos, pos + len);
    } else {
        lemma_hash_config(m.hash_shift, m.hash_mask);
        let h = m.hash_with(data[pos + 2]);
        lemma_hash_append_bound(m.running_hash, data[pos + 2], m.hash_shift, m.hash_mask);
        let m1 = m.insert(pos, data[pos + 2]);
        lemma_on_chain_agrees(m.prev, m1.prev, m.head[hash], target);
        assert(m1.wf(data.len() as int, pos + 1));
        assert(on_chain(m1.prev, m1.head[hash], target));
        lemma_update_keeps_chain(m1, data, pos + 1, (len - 1) as nat, hash, target);
    }
}

/// The rolling hash stays inside the hash table.
pub proof fn lemma_hash_append_bound(h: u32, b: u8, shift: u32, mask: u16)
    ensures
        hash_append(h, b, shift, mask) <= mask,
{
    let x: u32 = (h << shift) ^ (b as u32);
    let m: u32 = mask as u32;
    assert(x & m <= m) by (bit_vector);
}

/// After the positions from `pos` on were entered, each of them at which
/// three bytes stand is on the chain of its hash: the rolling hash after
/// its third byte.
pub proof fn lemma_update_hash_reachable(m: ChainModel, data: Seq<u8>, pos: int, len: nat, p: int)
    requires
        m.wf(data.len() as int, pos),
        pos + len <= data.len(),
        pos <= p < pos + len,
        p + 3 <= data.len(),
    ensures
        ({
            let after = m.update(data, pos, len);
            let hash = hash_roll(m.running_hash, data, pos + 2, p + 3, m.hash_shift, m.hash_mask);
            &&& hash < after.head.len()
            &&& on_chain(after.prev, after.head[hash as int], (p + 1) as u32)
        }),
    decreases len,
{
    lemma_hash_config(m.hash_shift, m.hash_mask);
    lemma_hash_append_bound(m.running_hash, data[pos + 2], m.hash_shift, m.hash_mask);
    let h = m.hash_with(data[pos + 2]);
    let m1 = m.insert(pos, data[pos + 2]);
    assert(m1.wf(data.len() as int, pos + 1));
    lemma_hash_roll_first(m.running_hash, data, pos + 2, p + 3, m.hash_shift, m.hash_mask);
    if p == pos {
        assert(hash_roll(h, data, pos + 3, pos + 3, m.hash_shift, m.hash_mask) == h);
        assert(on_chain(m1.prev, m1.head[h as int], (pos + 1) as u32));
        lemma_update_keeps_chain(m1, data, pos + 1, (len - 1) as nat, h as int, (pos + 1) as u32);
    } else {
        lemma_update_hash_reachable(m1, data, pos + 1, (len - 1) as nat, p);
    }
}

/// A mask cuts every number to the size of the hash table.
pub proof fn lemma_mask_bound(hash: u32, mask: u16)
    ensures
        hash & (mask as u32) <= mask,
{
    let m: u32 = mask as u32;
    assert(hash & m <= m) by (bit_vector);
}

/// A well-formed chain stays well-formed where one more position is entered.
pub proof fn lemma_insert_wf(m: ChainModel, size: int, pos: int, b: u8)
    requires
        m.wf(size, pos),
        pos < size,
    ensures
        m.insert(pos, b).wf(size, pos + 1),
        m.insert(pos, b).hash_shift == m.hash_shift,
        m.insert(pos, b).hash_mask == m.hash_mask,
{
    lemma_hash_append_bound(m.running_hash, b, m.hash_shift, m.hash_mask);
}

/// A well-formed chain stays well-formed where positions are entered.
pub proof fn lemma_update_wf(m: ChainModel, data: Seq<u8>, pos: int, len: nat)
    requires
        m.wf(data.len() as int, pos),
        pos + len <= data.len(),
    ensures
        m.update(data, pos, len).wf(data.len() as int, pos + len),
        m.update(data, pos, len).hash_shift == m.hash_shift,
        m.update(data, pos, len).hash_mask == m.hash_mask,
    decreases len,
{
    if len == 0 || pos + 2 >= data.len() {
        lemma_wf_later(m, data.len() as int, pos, pos + len);
    } else {
        lemma_insert_wf(m, data.len() as int, pos, data[pos + 2]);
        lemma_update_wf(m.insert(pos, data[pos + 2]), data, pos + 1, (len - 1) as nat);
    }
}

/// A well-formed chain stays well-formed where positions are passed.
pub proof fn lemma_skip_wf(m: ChainModel, data: Seq<u8>, pos: int, len: nat)
    requires
        m.wf(data.len() as int, pos),
        pos + len <= data.len(),
    ensures
        m.skip(data, pos, len).wf(data.len() as int, pos + len),
        m.skip(data, pos, len).hash_shift == m.hash_shift,
        m.skip(data, pos, len).hash_mask == m.hash_mask,
{
    if pos + 2 >= data.len() || len == 0 {
        lemma_wf_later(m, data.len() as int, pos, pos + len);
    } else {
        lemma_insert_wf(m, data.len() as int, pos, data[pos + 2]);
        let entered = m.insert(pos, data[pos + 2]).mark_skipped(pos + 2, pos + len + 1);
        assert(entered.wf(data.len() as int, pos + 1));
        if pos + len < data.len() {
            lemma_hash_append_bound(
                entered.running_hash,
                data[pos + len],
                m.hash_shift,
                m.hash_mask,
            );
            if pos + len + 1 < data.len() {
                lemma_hash_append_bound(
                    entered.roll(data[pos + len]).running_hash,
                    data[pos + len + 1],
                    m.hash_shift,
                    m.hash_mask,
                );
            }
        }
        lemma_wf_later(m.skip(data, pos, len), data.len() as int, pos + 1, pos + len);
    }
}

/// A chain leads to ever smaller entries: it holds no entry above its head.
pub proof fn lemma_on_chain_below(prev: Seq<u32>, cur: u32, target: u32)
    requires
        cur < target,
    ensures
        !on_chain(prev, cur, target),
    decreases cur,
{
    if cur == 0 || cur >= prev.len() {
    } else if prev[cur as int] < cur {
        lemma_on_chain_below(prev, prev[cur as int], target);
    }
}

/// The hash of the three bytes `a`, `b`, `c`.
pub open spec fn hash_of_three(a: u8, b: u8, c: u8, shift: u32, mask: u16) -> u32 {
    hash_append(hash_append(hash_append(0, a, shift, mask), b, shift, mask), c, shift, mask)
}

/// Three bytes push everything older out of the rolling hash.
proof fn lemma_three_shifts(h: u32, a: u8, b: u8, c: u8, hash_bits: u32)
    requires
        9 <= hash_bits <= 15,
    ensures
        ({
            let s = hash_shift_for(hash_bits);
            let m = hash_mask_for(hash_bits);
            hash_append(hash_append(hash_append(h, a, s, m), b, s, m), c, s, m) == hash_of_three(
                a,
                b,
                c,
                s,
                m,
            )
        }),
{
    let s = hash_shift_for(hash_bits);
    let m = hash_mask_for(hash_bits);
    let x: u32 = a as u32;
    let y: u32 = b as u32;
    let z: u32 = c as u32;
    let h1: u32 = hash_append(h, a, s, m);
    let h2: u32 = hash_append(h1, b, s, m);
    let h3: u32 = hash_append(h2, c, s, m);
    let g1: u32 = hash_append(0, a, s, m);
    let g2: u32 = hash_append(g1, b, s, m);
    let g3: u32 = hash_append(g2, c, s, m);
    if hash_bits == 9 {
        assert(h3 == g3) by (bit_vector)
            requires
                h1 == ((h << 3u32) ^ x) & 0x1ffu32,
                h2 == ((h1 << 3u32) ^ y) & 0x1ffu32,
                h3 == ((h2 << 3u32) ^ z) & 0x1ffu32,
                g1 == ((0u32 << 3u32) ^ x) & 0x1ffu32,
                g2 == ((g1 << 3u32) ^ y) & 0x1ffu32,
                g3 == ((g2 << 3u32) ^ z) & 0x1ffu32,
        ;
    }     else if hash_bits == 10 {
        assert(h3 == g3) by (bit_vector)
            requires
                h1 == ((h << 4u32) ^ x) & 0x3ffu32,
                h2 == ((h1 << 4u32) ^ y) & 0x3ffu32,
                h3 == ((h2 << 4u32) ^ z) & 0x3ffu32,
                g1 == ((0u32 << 4u32) ^ x) & 0x3ffu32,
                g2 == ((g1 << 4u32) ^ y) & 0x3ffu32,
                g3 == ((g2 << 4u32) ^ z) & 0x3ffu32,
        ;
    }     else if hash_bits == 11 {
        assert(h3 == g3) by (bit_vector)
            requires
                h1 == ((h << 4u32) ^ x) & 0x7ffu32,
                h2 == ((h1 << 4u32) ^ y) & 0x7ffu32,
                h3 == ((h2 << 4u32) ^ z) & 0x7ffu32,
                g1 == ((0u32 << 4u32) ^ x) & 0x7ffu32,
                g2 == ((g1 << 4u32) ^ y) & 0x7ffu32,
                g3 == ((g2 << 4u32) ^ z) & 0x7ffu32,
        ;
    }     else if hash_bits == 12 {
        assert(h3 == g3) by (bit_vector)
            requires
                h1 == ((h << 4u32) ^ x) & 0xfffu32,
                h2 == ((h1 << 4u32) ^ y) & 0xfffu32,
                h3 == ((h2 << 4u32) ^ z) & 0xfffu32,
                g1 == ((0u32 << 4u32) ^ x) & 0xfffu32,
                g2 == ((g1 << 4u32) ^ y) & 0xfffu32,
                g3 == ((g2 << 4u32) ^ z) & 0xfffu32,
        ;
    }     else if hash_bits == 13 {
        assert(h3 == g3) by (bit_vector)
            requires
                h1 == ((h << 5u32) ^ x) & 0x1fffu32,
                h2 == ((h1 << 5u32) ^ y) & 0x1fffu32,
                h3 == ((h2 << 5u32) ^ z) & 0x1fffu32,
                g1 == ((0u32 << 5u32) ^ x) & 0x1fffu32,
                g2 == ((g1 << 5u32) ^ y) & 0x1fffu32,
                g3 == ((g2 << 5u32) ^ z) & 0x1fffu32,
        ;
    }     else if hash_bits == 14 {
        assert(h3 == g3) by (bit_vector)
            requires
                h1 == ((h << 5u32) ^ x) & 0x3fffu32,
                h2 == ((h1 << 5u32) ^ y) & 0x3fffu32,
                h3 == ((h2 << 5u32) ^ z) & 0x3fffu32,
                g1 == ((0u32 << 5u32) ^ x) & 0x3fffu32,
                g2 == ((g1 << 5u32) ^ y) & 0x3fffu32,
                g3 == ((g2 << 5u32) ^ z) & 0x3fffu32,
        ;
    }     else {
        assert(h3 == g3) by (bit_vector)
            requires
                h1 == ((h << 5u32) ^ x) & 0x7fffu32,
                h2 == ((h1 << 5u32) ^ y) & 0x7fffu32,
                h3 == ((h2 << 5u32) ^ z) & 0x7fffu32,
                g1 == ((0u32 << 5u32) ^ x) & 0x7fffu32,
                g2 == ((g1 << 5u32) ^ y) & 0x7fffu32,
                g3 == ((g2 << 5u32) ^ z) & 0x7fffu32,
        ;
    }
}

/// The rolling hash after three bytes is the hash of these three bytes,
/// whatever it was before them.
pub proof fn lemma_hash_window(h: u32, a: u8, b: u8, c: u8, shift: u32, mask: u16)
    requires
        hash_config_wf(shift, mask),
    ensures
        hash_append(hash_append(hash_append(h, a, shift, mask), b, shift, mask), c, shift, mask)
            == hash_of_three(a, b, c, shift, mask),
{
    let bits = choose|bits: u32|
        9 <= bits <= 15 && shift == #[trigger] hash_shift_for(bits) && mask == hash_mask_for(bits);
    lemma_three_shifts(h, a, b, c, bits);
}

/// The rolling hash over three bytes or more is the hash of the last three.
pub proof fn lemma_hash_roll_window(h: u32, data: Seq<u8>, from: int, to: int, shift: u32, mask: u16)
    requires
        hash_config_wf(shift, mask),
        from + 3 <= to,
    ensures
        hash_roll(h, data, from, to, shift, mask) == hash_of_three(
            data[to - 3],
            data[to - 2],
            data[to - 1],
            shift,
            mask,
        ),
{
    reveal_with_fuel(hash_roll, 4);
    lemma_hash_window(
        hash_roll(h, data, from, to - 3, shift, mask),
        data[to - 3],
        data[to - 2],
        data[to - 1],
        shift,
        mask,
    );
}

/// The rolling hash holds the two bytes at position `pos`: with the
/// third byte it is the hash of the three bytes at that position.
pub open spec fn primed(m: ChainModel, data: Seq<u8>, pos: int) -> bool {
    pos + 2 <= data.len() ==> forall|c: u8| #[trigger]
        hash_append(m.running_hash, c, m.hash_shift, m.hash_mask) == hash_of_three(
            data[pos],
            data[pos + 1],
            c,
            m.hash_shift,
            m.hash_mask,
        )
}

/// The rolling hash follows the position where a position is entered.
pub proof fn lemma_insert_primed(m: ChainModel, data: Seq<u8>, pos: int)
    requires
        hash_config_wf(m.hash_shift, m.hash_mask),
        0 <= pos,
        pos + 2 < data.len(),
        primed(m, data, pos),
    ensures
        primed(m.insert(pos, data[pos + 2]), data, pos + 1),
        m.hash_with(data[pos + 2]) == hash_of_three(
            data[pos],
            data[pos + 1],
            data[pos + 2],
            m.hash_shift,
            m.hash_mask,
        ),
{
    let after = m.insert(pos, data[pos + 2]);
    assert forall|c: u8| #[trigger]
        hash_append(after.running_hash, c, m.hash_shift, m.hash_mask) == hash_of_three(
            data[pos + 1],
            data[pos + 2],
            c,
            m.hash_shift,
            m.hash_mask,
        ) by {
        lemma_hash_window(
            hash_append(0, data[pos], m.hash_shift, m.hash_mask),
            data[pos + 1],
            data[pos + 2],
            c,
            m.hash_shift,
            m.hash_mask,
        );
    }
}

/// The rolling hash follows the position where positions are entered.
pub proof fn lemma_update_primed(m: ChainModel, data: Seq<u8>, pos: int, len: nat)
    requires
        m.wf(data.len() as int, pos),
        pos + len <= data.len(),
        primed(m, data, pos),
    ensures
        primed(m.update(data, pos, len), data, pos + len),
    decreases len,
{
    if len == 0 || pos + 2 >= data.len() {
    } else {
        lemma_insert_primed(m, data, pos);
        lemma_insert_wf(m, data.len() as int, pos, data[pos + 2]);
        lemma_update_primed(m.insert(pos, data[pos + 2]), data, pos + 1, (len - 1) as nat);
    }
}

/// The rolling hash follows the position where positions are passed.
pub proof fn lemma_skip_primed(m: ChainModel, data: Seq<u8>, pos: int, len: nat)
    requires
        m.wf(data.len() as int, pos),
        pos + len <= data.len(),
        primed(m, data, pos),
    ensures
        primed(m.skip(data, pos, len), data, pos + len),
{
    if pos + 2 >= data.len() || len == 0 {
    } else if pos + len + 1 < data.len() {
        let entered = m.insert(pos, data[pos + 2]).mark_skipped(pos + 2, pos + len + 1);
        assert forall|c: u8| #[trigger]
            hash_append(
                m.skip(data, pos, len).running_hash,
                c,
                m.hash_shift,
                m.hash_mask,
            ) == hash_of_three(data[pos + len], data[pos + len + 1], c, m.hash_shift, m.hash_mask) by {
            lemma_hash_window(
                entered.running_hash,
                data[pos + len],
                data[pos + len + 1],
                c,
                m.hash_shift,
                m.hash_mask,
            );
        }
    }
}

} // verus!
