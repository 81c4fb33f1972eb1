//! The search primitives of the predictors: the plaintext, its cursor and
//! the hash chain over what lies before the cursor.

use vstd::prelude::*;
use crate::bit_helper::{DebugHash, checksum_fold, checksum_step};
use crate::hash_chain::{ChainModel, HashChain, entry_dist, on_chain};
use crate::preflate_constants::{MAX_MATCH, MIN_LOOKAHEAD, MIN_MATCH};
use crate::preflate_error::PreflateError;
use crate::preflate_input::PreflateInput;
use crate::preflate_parameter_estimator::PreflateParameters;
use crate::preflate_token::PreflateTokenReference;

verus! {

/// How a search for a match ended.
#[derive(Clone, Copy, Debug, PartialEq, Eq, Structural)]
pub enum MatchResult {
    /// The best match that was found.
    Success(PreflateTokenReference),
    /// The newest entry of the chain lies further away than a match may:
    /// its distance and the largest distance allowed.
    DistanceLargerThanHop0(u32, u32),
    /// Not enough plaintext is left for a match longer than the one at hand.
    NoInput,
    /// The chain ended without a match: what the last comparison gave, and
    /// the distance of the last entry.
    NoMoreMatchesFound { start_len: u32, last_dist: u32 },
    /// The search gave up after the number of entries it was allowed.
    MaxChainExceeded,
}

/// What a repeated search would need to find a given reference.
#[derive(Clone, Copy, Debug, PartialEq, Eq, Structural)]
pub struct PreflateRematchInfo {
    pub requested_match_depth: u32,
    pub condensed_hops: u32,
}

impl Default for PreflateRematchInfo {
    fn default() -> (r: Self)
        ensures
            r == (PreflateRematchInfo { requested_match_depth: 0, condensed_hops: 0 }),
    {
        PreflateRematchInfo { requested_match_depth: 0, condensed_hops: 0 }
    }
}

/// The smaller of two numbers.
pub open spec fn spec_min(a: int, b: int) -> int {
    if a <= b {
        a
    } else {
        b
    }
}

/// The smaller of two numbers.
pub fn min_u32(a: u32, b: u32) -> (r: u32)
    ensures
        r == spec_min(a as int, b as int),
{
    if a <= b {
        a
    } else {
        b
    }
}

/// Number of places from `from` on, up to `max_len`, at which `s1` and `s2`
/// hold the same bytes without a gap.
pub open spec fn common_run(s1: Seq<u8>, s2: Seq<u8>, from: int, max_len: int) -> int
    decreases max_len - from,
{
    if from >= max_len || from >= s1.len() || from >= s2.len() || s1[from] != s2[from] {
        0
    } else {
        1 + common_run(s1, s2, from + 1, max_len)
    }
}

/// The bytes of a common run are equal, and the run ends at a difference
/// or at a bound.
pub proof fn lemma_common_run(s1: Seq<u8>, s2: Seq<u8>, from: int, max_len: int)
    requires
        0 <= from,
    ensures
        0 <= common_run(s1, s2, from, max_len),
        from < max_len ==> from + common_run(s1, s2, from, max_len) <= max_len,
        common_run(s1, s2, from, max_len) > 0 ==> from + common_run(s1, s2, from, max_len)
            <= s1.len() && from + common_run(s1, s2, from, max_len) <= s2.len(),
        forall|i: int|
            from <= i < from + common_run(s1, s2, from, max_len) ==> (#[trigger] s1[i]) == s2[i],
    decreases max_len - from,
{
    if from >= max_len || from >= s1.len() || from >= s2.len() || s1[from] != s2[from] {
    } else {
        lemma_common_run(s1, s2, from + 1, max_len);
    }
}

/// What a comparison of `s1` with `s2` reports to a search that already
/// has a match of `best_len` bytes: nothing where the byte at `best_len`
/// or one of the first three differs, else the length of the common prefix
/// up to `max_len`.
pub open spec fn prefix_compare_spec(s1: Seq<u8>, s2: Seq<u8>, best_len: u32, max_len: u32) -> u32 {
    if s1[best_len as int] != s2[best_len as int] {
        0
    } else if s1[0] != s2[0] || s1[1] != s2[1] || s1[2] != s2[2] {
        0
    } else {
        common_run(s1, s2, 0, max_len as int) as u32
    }
}

/// `len` bytes of `data` repeat at `pos` what stands `dist` bytes before.
pub open spec fn is_match(data: Seq<u8>, pos: int, dist: int, len: int) -> bool {
    &&& 0 < dist <= pos
    &&& pos + len <= data.len()
    &&& data.subrange(pos - dist, pos - dist + len) == data.subrange(pos, pos + len)
}

/// A comparison that looks for `len` bytes finds them where they match.
pub proof fn lemma_compare_is_match(data: Seq<u8>, pos: int, dist: int, len: u32)
    requires
        0 < dist <= pos,
        3 <= len,
        pos + len <= data.len(),
    ensures
        (prefix_compare_spec(data.skip(pos - dist), data.skip(pos), (len - 1) as u32, len) >= len)
            == is_match(data, pos, dist, len as int),
{
    let s1 = data.skip(pos - dist);
    let s2 = data.skip(pos);
    let a = data.subrange(pos - dist, pos - dist + len);
    let b = data.subrange(pos, pos + len);
    lemma_common_run(s1, s2, 0, len as int);
    let n = common_run(s1, s2, 0, len as int);
    if is_match(data, pos, dist, len as int) {
        assert forall|i: int| 0 <= i < len implies s1[i] == s2[i] by {
            assert(a[i] == b[i]);
        }
        lemma_common_run_full(s1, s2, 0, len as int);
    } else {
        if prefix_compare_spec(s1, s2, (len - 1) as u32, len) >= len {
            assert forall|i: int| 0 <= i < len implies a[i] == b[i] by {
                assert(s1[i] == s2[i]);
            }
            assert(a =~= b);
        }
    }
}

/// Where all bytes up to the bound are equal the common run reaches the bound.
pub proof fn lemma_common_run_full(s1: Seq<u8>, s2: Seq<u8>, from: int, max_len: int)
    requires
        0 <= from <= max_len,
        max_len <= s1.len(),
        max_len <= s2.len(),
        forall|i: int| from <= i < max_len ==> s1[i] == s2[i],
    ensures
        common_run(s1, s2, from, max_len) == max_len - from,
    decreases max_len - from,
{
    if from < max_len {
        lemma_common_run_full(s1, s2, from + 1, max_len);
    }
}

/// The state of the search as a mathematical value.
pub struct PredictorModel {
    pub data: Seq<u8>,
    pub pos: u32,
    pub chain: ChainModel,
    pub params: PreflateParameters,
}

impl PredictorModel {
    /// The cursor is inside the plaintext and the chain covers what lies before it.
    pub open spec fn wf(self) -> bool {
        &&& self.params.wf()
        &&& self.pos <= self.data.len() < u32::MAX
        &&& self.chain.wf(self.data.len() as int, self.pos as int)
        &&& self.chain.hash_shift == self.params.hash_shift
        &&& self.chain.hash_mask == self.params.hash_mask
    }

    /// Number of bytes from the cursor to the end.
    pub open spec fn remaining(self) -> int {
        self.data.len() - self.pos
    }

    /// Size of the window in bytes.
    pub open spec fn window_size(self) -> u32 {
        self.params.spec_window_size()
    }

    /// The state after the next `len` positions were entered into the chain.
    pub open spec fn update_hash(self, len: u32) -> PredictorModel {
        PredictorModel {
            chain: self.chain.update(self.data, self.pos as int, len as nat),
            pos: (self.pos + len) as u32,
            ..self
        }
    }

    /// The state after the next `len` positions were passed and only the first entered.
    pub open spec fn skip_hash(self, len: u32) -> PredictorModel {
        PredictorModel {
            chain: self.chain.skip(self.data, self.pos as int, len as nat),
            pos: (self.pos + len) as u32,
            ..self
        }
    }

    /// The hash of the three bytes at the cursor.
    pub open spec fn cur_hash(self) -> u32 {
        self.chain.hash_with(self.data[self.pos + 2])
    }

    /// The hash of the three bytes one after the cursor.
    pub open spec fn next_hash(self) -> u32 {
        self.chain.roll(self.data[self.pos + 2]).hash_with(self.data[self.pos + 3])
    }

    /// The entry after `cur` on its chain is in reach of a search from `start`.
    pub open spec fn has_next(self, cur: u32, start: u32, max_dist: u32) -> bool {
        let next = self.chain.prev[cur as int];
        0 < next < cur && entry_dist(next, start) <= max_dist
    }

    /// The search from the entry `cur` on: each entry is compared with the
    /// plaintext at `start`; a longer match replaces the best so far, and
    /// one of at least `nice_len` bytes ends the search, as does the end of
    /// the chain and the bound `chain_left` on the number of entries.
    pub open spec fn scan_chain(
        self,
        start: u32,
        cur: u32,
        hop1: u32,
        best_len: u32,
        best: Option<PreflateTokenReference>,
        max_len: u32,
        nice_len: u32,
        chain_left: int,
    ) -> MatchResult
        decreases cur,
    {
        let dist = entry_dist(cur, start);
        let ml = prefix_compare_spec(
            self.data.skip(start - dist),
            self.data.skip(start as int),
            best_len,
            max_len,
        );
        let found = PreflateTokenReference { len: ml, dist, irregular258: false };
        if ml > best_len && ml >= nice_len {
            MatchResult::Success(found)
        } else {
            let best2 = if ml > best_len {
                Some(found)
            } else {
                best
            };
            let best_len2 = if ml > best_len {
                ml
            } else {
                best_len
            };
            if !self.has_next(cur, start, hop1) {
                match best2 {
                    Some(r) => MatchResult::Success(r),
                    None => MatchResult::NoMoreMatchesFound { start_len: ml, last_dist: dist },
                }
            } else if chain_left <= 1 {
                match best2 {
                    Some(r) => MatchResult::Success(r),
                    None => MatchResult::MaxChainExceeded,
                }
            } else {
                self.scan_chain(
                    start,
                    self.chain.prev[cur as int],
                    hop1,
                    best_len2,
                    best2,
                    max_len,
                    nice_len,
                    chain_left - 1,
                )
            }
        }
    }

    /// Largest distance of a match at `start` that does not reach before
    /// the plaintext. Position 0 is out of reach unless the encoder is
    /// known to have used it.
    pub open spec fn max_dist_to_start(self, start: u32) -> u32 {
        if self.params.matches_to_start_detected || start == 0 {
            start
        } else {
            (start - 1) as u32
        }
    }

    /// Largest distance that a zlib encoder allows: the window less the
    /// look-ahead it keeps.
    pub open spec fn zlib_max_dist(self) -> u32 {
        if self.window_size() >= MIN_LOOKAHEAD {
            (self.window_size() - MIN_LOOKAHEAD) as u32
        } else {
            0
        }
    }

    /// Largest distance for the newest entry of a chain.
    pub open spec fn hop0_dist(self, start: u32) -> u32 {
        if self.params.very_far_matches_detected {
            spec_min(self.max_dist_to_start(start) as int, self.window_size() as int) as u32
        } else {
            spec_min(self.max_dist_to_start(start) as int, self.zlib_max_dist() as int) as u32
        }
    }

    /// Largest distance for the other entries of a chain.
    pub open spec fn hop1_dist(self, start: u32) -> u32 {
        if self.params.very_far_matches_detected {
            self.hop0_dist(start)
        } else if self.zlib_max_dist() == 0 {
            0
        } else {
            spec_min(self.max_dist_to_start(start) as int, self.zlib_max_dist() - 1) as u32
        }
    }

    /// Longest match that the plaintext allows at `start`.
    pub open spec fn max_len_at(self, start: int) -> u32 {
        if start > self.data.len() {
            0
        } else {
            spec_min(self.data.len() - start, MAX_MATCH as int) as u32
        }
    }

    /// Number of chain entries that a search looks at. A bound of 0 is no bound.
    pub open spec fn chain_bound(self, prev_len: u32, max_depth: u32) -> int {
        let bound = if max_depth > 0 {
            max_depth
        } else if prev_len >= self.params.good_length {
            self.params.max_chain / 4
        } else {
            self.params.max_chain
        };
        if bound == 0 {
            0x1_0000_0000
        } else {
            bound as int
        }
    }

    /// Length from which on a match ends the search.
    pub open spec fn nice_len(self, max_len: u32, max_depth: u32) -> u32 {
        if max_depth > 0 {
            max_len
        } else {
            spec_min(self.params.nice_length as int, max_len as int) as u32
        }
    }

    /// The match that a zlib-like encoder finds `offset` bytes after the
    /// cursor on the chain for `hash`, where it already has a match of
    /// `prev_len` bytes. With `max_depth` not 0 the search looks at that
    /// many entries and takes the longest match.
    #[verifier::opaque]
    pub open spec fn match_token(self, hash: u32, prev_len: u32, offset: u32, max_depth: u32) -> MatchResult {
        let start = self.pos + offset;
        let max_len = self.max_len_at(start);
        if max_len < MIN_MATCH || max_len <= prev_len {
            MatchResult::NoInput
        } else {
            let head = self.chain.head_of(hash);
            let d0 = entry_dist(head, start as u32);
            if d0 > self.hop0_dist(start as u32) {
                MatchResult::DistanceLargerThanHop0(d0, self.hop0_dist(start as u32))
            } else {
                self.scan_chain(
                    start as u32,
                    head,
                    self.hop1_dist(start as u32),
                    prev_len,
                    None,
                    max_len,
                    self.nice_len(max_len, max_depth),
                    self.chain_bound(prev_len, max_depth),
                )
            }
        }
    }

    /// `len` bytes at the cursor repeat what stands `dist` bytes before.
    pub open spec fn matches(self, dist: u32, len: u32) -> bool {
        is_match(self.data, self.pos as int, dist as int, len as int)
    }

    /// Walks the chain from the entry `cur` to the distance of `target` and
    /// counts the entries on the way, the last included, at which the
    /// plaintext matches in the length of `target`. `hops` is the count so
    /// far and `chain_left` the number of entries that may still be visited.
    pub open spec fn hops_walk(
        self,
        cur: u32,
        target: PreflateTokenReference,
        max_dist: u32,
        hops: u32,
        chain_left: int,
    ) -> Result<u32, PreflateError>
        decreases cur,
    {
        let dist = entry_dist(cur, self.pos);
        let hops2 = if self.matches(dist, target.len) {
            (hops + 1) as u32
        } else {
            hops
        };
        if dist == target.dist {
            Ok(hops2)
        } else if dist > target.dist {
            Err(PreflateError::ChainExhausted)
        } else if !self.has_next(cur, self.pos, max_dist) || chain_left <= 1 {
            Err(PreflateError::ChainExhausted)
        } else {
            self.hops_walk(self.chain.prev[cur as int], target, max_dist, hops2, chain_left - 1)
        }
    }

    /// Largest distance of a match at the cursor inside the window.
    pub open spec fn cur_max_dist(self) -> u32 {
        spec_min(self.pos as int, self.window_size() as int) as u32
    }

    /// The entry at the head of the chain for the bytes at the cursor is in reach.
    pub open spec fn head_in_reach(self) -> bool {
        let head = self.chain.head_of(self.cur_hash());
        head > 0 && entry_dist(head, self.pos) <= self.cur_max_dist()
    }

    /// The number of matching chain entries up to the one that `target` refers to.
    #[verifier::opaque]
    pub open spec fn calculate_hops(self, target: PreflateTokenReference) -> Result<u32, PreflateError> {
        if self.max_len_at(self.pos as int) < target.len {
            Err(PreflateError::PlaintextTooShort)
        } else if !self.head_in_reach() {
            Err(PreflateError::ChainExhausted)
        } else {
            self.hops_walk(
                self.chain.head_of(self.cur_hash()),
                target,
                self.cur_max_dist(),
                0,
                0xffff,
            )
        }
    }

    /// Walks the chain from the entry `cur` to the entry that is the
    /// `hops`-th, counted from `hop` on, at which the plaintext matches in
    /// `len` bytes, and gives its distance.
    pub open spec fn hop_walk(self, cur: u32, len: u32, max_dist: u32, hop: u32, hops: u32) -> Result<
        u32,
        PreflateError,
    >
        decreases cur,
    {
        let dist = entry_dist(cur, self.pos);
        let hop2 = if self.matches(dist, len) {
            (hop + 1) as u32
        } else {
            hop
        };
        if self.matches(dist, len) && hop2 == hops {
            Ok(dist)
        } else if !self.has_next(cur, self.pos, max_dist) {
            Err(PreflateError::HopsOutOfRange)
        } else {
            self.hop_walk(self.chain.prev[cur as int], len, max_dist, hop2, hops)
        }
    }

    /// The distance of the `hops`-th chain entry at which `len` bytes match.
    #[verifier::opaque]
    pub open spec fn hop_match(self, len: u32, hops: u32) -> Result<u32, PreflateError> {
        if len < MIN_MATCH {
            Err(PreflateError::InvalidLength)
        } else if self.max_len_at(self.pos as int) < len {
            Err(PreflateError::PlaintextTooShort)
        } else if !self.head_in_reach() {
            Err(PreflateError::HopsOutOfRange)
        } else {
            self.hop_walk(self.chain.head_of(self.cur_hash()), len, self.cur_max_dist(), 0, hops)
        }
    }
}

/// The plaintext with its cursor and the hash chain over what lies before it.
pub struct PredictorState<'a> {
    pub hash: HashChain,
    pub input: PreflateInput<'a>,
    pub params: PreflateParameters,
    pub window_bytes: u32,
}

impl<'a> View for PredictorState<'a> {
    type V = PredictorModel;

    open spec fn view(&self) -> PredictorModel {
        PredictorModel {
            data: self.input.data@,
            pos: self.input.pos,
            chain: self.hash@,
            params: self.params,
        }
    }
}

/// The window of a well-formed configuration has between 256 and 32768 bytes.
pub proof fn lemma_window_size(window_bits: u32)
    requires
        8 <= window_bits <= 15,
    ensures
        256 <= (1u32 << window_bits) <= 32768,
{
    assert(8 <= window_bits <= 15 ==> 256 <= (1u32 << window_bits) <= 32768) by (bit_vector);
}

impl<'a> PredictorState<'a> {
    /// The model is well-formed and the window size is the one of the options.
    pub open spec fn wf(&self) -> bool {
        &&& self@.wf()
        &&& self.window_bytes == self@.window_size()
    }

    /// A state at the start of `uncompressed` with an empty chain.
    pub fn new(uncompressed: &'a [u8], params: &PreflateParameters) -> (r: Self)
        requires
            params.wf(),
            uncompressed@.len() < u32::MAX,
        ensures
            r.wf(),
            r@.data == uncompressed@,
            r@.pos == 0,
            r@.params == *params,
            r@.chain == HashChain::spec_new(
                params.hash_shift,
                params.hash_mask,
                uncompressed@.len() as u32,
            ),
    {
        proof {
            lemma_window_size(params.window_bits);
        }
        PredictorState {
            hash: HashChain::new(params.hash_shift, params.hash_mask, uncompressed.len() as u32),
            window_bytes: 1u32 << params.window_bits,
            params: *params,
            input: PreflateInput::new(uncompressed),
        }
    }

    /// Adds the state of the hash chain to `checksum`.
    pub fn checksum(&self, checksum: &mut DebugHash)
        ensures
            final(checksum).hash == checksum_fold(
                checksum_step(old(checksum).hash, self@.chain.running_hash as u64),
                self@.chain.head,
            ),
    {
        self.hash.checksum(checksum);
    }

    /// Takes one byte into the rolling hash.
    pub fn update_running_hash(&mut self, b: u8)
        requires
            old(self).wf(),
        ensures
            final(self).wf(),
            final(self)@ == (PredictorModel { chain: old(self)@.chain.roll(b), ..old(self)@ }),
    {
        self.hash.update_running_hash(b);
    }

    /// Enters the next `length` positions into the chain and moves the cursor past them.
    pub fn update_hash(&mut self, length: u32)
        requires
            old(self).wf(),
            length <= old(self)@.remaining(),
        ensures
            final(self).wf(),
            final(self)@ == old(self)@.update_hash(length),
    {
        self.hash.update_hash(length, &self.input);
        self.input.advance(length);
    }

    /// Moves the cursor past the next `length` positions and enters only the
    /// first of them into the chain.
    pub fn skip_hash(&mut self, length: u32)
        requires
            old(self).wf(),
            length <= old(self)@.remaining(),
        ensures
            final(self).wf(),
            final(self)@ == old(self)@.skip_hash(length),
    {
        self.hash.skip_hash(length, &self.input);
        self.input.advance(length);
    }

    /// The position of the cursor.
    pub fn current_input_pos(&self) -> (r: u32)
        ensures
            r == self@.pos,
    {
        self.input.pos()
    }

    /// The plaintext from the cursor on.
    pub fn input_cursor(&self) -> (r: &[u8])
        requires
            self.wf(),
        ensures
            r@ == self@.data.skip(self@.pos as int),
    {
        self.input.cur_chars(0)
    }

    /// The plaintext from `offset` bytes after the cursor on.
    pub fn input_cursor_offset(&self, offset: i32) -> (r: &[u8])
        requires
            self.wf(),
            0 <= self@.pos + offset <= self@.data.len(),
        ensures
            r@ == self@.data.skip(self@.pos + offset),
    {
        self.input.cur_chars(offset)
    }

    /// The plaintext from position `pos` on.
    fn input_from(&self, pos: u32) -> (r: &[u8])
        requires
            pos <= self@.data.len(),
        ensures
            r@ == self@.data.skip(pos as int),
    {
        let r = &self.input.data[pos as usize..self.input.data.len()];
        assert(r@ =~= self@.data.skip(pos as int));
        r
    }

    /// Size of the window in bytes.
    pub fn window_size(&self) -> (r: u32)
        ensures
            r == self.window_bytes,
    {
        self.window_bytes
    }

    /// Length of the plaintext.
    pub fn total_input_size(&self) -> (r: u32)
        requires
            self.wf(),
        ensures
            r == self@.data.len(),
    {
        self.input.size()
    }

    /// Number of bytes from the cursor to the end.
    pub fn available_input_size(&self) -> (r: u32)
        requires
            self.wf(),
        ensures
            r == self@.remaining(),
    {
        self.input.remaining()
    }

    /// Two hashes name the same chain.
    pub fn hash_equal(&self, a: u32, b: u32) -> (r: bool)
        ensures
            r == (a & (self.params.hash_mask as u32) == b & (self.params.hash_mask as u32)),
    {
        (a & (self.params.hash_mask as u32)) == (b & (self.params.hash_mask as u32))
    }

    /// The hash of the three bytes at the cursor.
    pub fn calculate_hash(&self) -> (r: u32)
        requires
            self.wf(),
            self@.remaining() >= 3,
        ensures
            r == self@.cur_hash(),
            r <= self.params.hash_mask,
    {
        self.hash.cur_hash(&self.input)
    }

    /// The hash of the three bytes one after the cursor.
    pub fn calculate_hash_next(&self) -> (r: u32)
        requires
            self.wf(),
            self@.remaining() >= 4,
        ensures
            r == self@.next_hash(),
            r <= self.params.hash_mask,
    {
        self.hash.cur_plus_1_hash(&self.input)
    }

    /// Says whether the position that `dist` refers to is on the chain of
    /// the hash of the bytes at the cursor: whether a search from here can
    /// come to it at all. Without a reference there is nothing to look for.
    pub fn verify_hash(&self, dist: Option<PreflateTokenReference>) -> (r: bool)
        requires
            self.wf(),
        ensures
            r == match dist {
                None => true,
                Some(t) => {
                    &&& self@.remaining() >= 3
                    &&& 0 < t.dist <= self@.pos
                    &&& on_chain(
                        self@.chain.prev,
                        self@.chain.head_of(self@.cur_hash()),
                        (self@.pos - t.dist + 1) as u32,
                    )
                },
            },
    {
        let t = match dist {
            None => {
                return true;
            },
            Some(t) => t,
        };
        let pos: u32 = self.current_input_pos();
        if self.available_input_size() < 3 || t.dist == 0 || t.dist > pos {
            return false;
        }
        let target: u32 = pos - t.dist + 1;
        let hash: u32 = self.calculate_hash();
        let mut cur: u32 = self.hash.get_head(hash);
        proof {
            crate::hash_chain::lemma_mask_bound(hash, self.hash.hash_mask);
        }
        while cur > target
            invariant
                self.wf(),
                0 < target,
                cur <= self@.pos,
                on_chain(self@.chain.prev, self@.chain.head_of(self@.cur_hash()), target)
                    == on_chain(self@.chain.prev, cur, target),
            decreases cur,
        {
            cur = self.hash.prev[cur as usize];
        }
        proof {
            if cur < target {
                crate::hash_chain::lemma_on_chain_below(self@.chain.prev, cur, target);
            }
        }
        cur == target
    }

    /// Compares `s1` with `s2` for a search that already has a match of
    /// `best_len` bytes and looks for at most `max_len`.
    pub fn prefix_compare(s1: &[u8], s2: &[u8], best_len: u32, max_len: u32) -> (r: u32)
        requires
            3 <= max_len,
            best_len < max_len,
            max_len <= s1@.len(),
            max_len <= s2@.len(),
        ensures
            r == prefix_compare_spec(s1@, s2@, best_len, max_len),
            r == 0 || 3 <= r <= max_len,
    {
        if s1[best_len as usize] != s2[best_len as usize] {
            return 0;
        }
        if s1[0] != s2[0] || s1[1] != s2[1] || s1[2] != s2[2] {
            return 0;
        }
        proof {
            reveal_with_fuel(common_run, 4);
            lemma_common_run(s1@, s2@, 3, max_len as int);
        }
        let mut match_len: u32 = 3;
        while match_len < max_len && s1[match_len as usize] == s2[match_len as usize]
            invariant
                3 <= match_len <= max_len,
                max_len <= s1@.len(),
                max_len <= s2@.len(),
                common_run(s1@, s2@, 0, max_len as int) == match_len + common_run(
                    s1@,
                    s2@,
                    match_len as int,
                    max_len as int,
                ),
            decreases max_len - match_len,
        {
            match_len += 1;
        }
        match_len
    }

    /// Searches the chain for `hash` for the match that a zlib-like encoder
    /// finds `offset` bytes after the cursor, where it already has a match
    /// of `prev_len` bytes. With `max_depth` not 0 the search looks at that
    /// many entries and takes the longest match.
    pub fn match_token(&self, hash: u32, prev_len: u32, offset: u32, max_depth: u32) -> (r: MatchResult)
        requires
            self.wf(),
        ensures
            r == self@.match_token(hash, prev_len, offset, max_depth),
            match r {
                MatchResult::Success(m) => {
                    &&& m.wf()
                    &&& !m.irregular258
                    &&& prev_len < m.len <= self@.max_len_at(self@.pos + offset)
                    &&& m.dist <= self@.pos + offset
                },
                _ => true,
            },
    {
        reveal(PredictorModel::match_token);
        let size: u32 = self.total_input_size();
        let pos: u32 = self.current_input_pos();
        if offset > size - pos {
            return MatchResult::NoInput;
        }
        let start_pos: u32 = pos + offset;
        let max_len: u32 = min_u32(size - start_pos, MAX_MATCH);
        if max_len < MIN_MATCH || max_len <= prev_len {
            return MatchResult::NoInput;
        }
        let max_dist_to_start: u32 = if self.params.matches_to_start_detected || start_pos == 0 {
            start_pos
        } else {
            start_pos - 1
        };
        let window: u32 = self.window_size();
        proof {
            lemma_window_size(self.params.window_bits);
        }
        let cur_max_dist_hop0: u32;
        let cur_max_dist_hop1_plus: u32;
        if self.params.very_far_matches_detected {
            cur_max_dist_hop0 = min_u32(max_dist_to_start, window);
            cur_max_dist_hop1_plus = cur_max_dist_hop0;
        } else {
            let max_dist: u32 = if window >= MIN_LOOKAHEAD {
                window - MIN_LOOKAHEAD
            } else {
                0
            };
            cur_max_dist_hop0 = min_u32(max_dist_to_start, max_dist);
            cur_max_dist_hop1_plus = if max_dist == 0 {
                0
            } else {
                min_u32(max_dist_to_start, max_dist - 1)
            };
        }
        let mut chain_left: u64;
        let nice_len: u32;
        if max_depth > 0 {
            chain_left = max_depth as u64;
            nice_len = max_len;
        } else {
            nice_len = min_u32(self.params.nice_length, max_len);
            chain_left = if prev_len >= self.params.good_length {
                (self.params.max_chain / 4) as u64
            } else {
                self.params.max_chain as u64
            };
        }
        if chain_left == 0 {
            chain_left = 0x1_0000_0000;
        }
        proof {
            crate::hash_chain::lemma_wf_later(
                self@.chain,
                size as int,
                pos as int,
                start_pos as int,
            );
        }
        let mut chain_it = self.hash.iterate_from_head(hash, start_pos, cur_max_dist_hop1_plus);
        // The newest entry of a chain may lie one byte further away than the others.
        if chain_it.dist() > cur_max_dist_hop0 {
            let d: u32 = chain_it.dist();
            return MatchResult::DistanceLargerThanHop0(d, cur_max_dist_hop0);
        }
        let mut best_len: u32 = prev_len;
        let mut best_match: Option<PreflateTokenReference> = None;
        let input: &[u8] = self.input_from(start_pos);
        loop
            invariant
                self.wf(),
                chain_it.wf(),
                chain_it.chain@ == self@.chain,
                chain_it.ref_pos == start_pos,
                chain_it.max_dist == cur_max_dist_hop1_plus,
                0 < chain_it.cur,
                entry_dist(chain_it.cur, start_pos) <= cur_max_dist_hop0,
                cur_max_dist_hop1_plus <= cur_max_dist_hop0 <= start_pos,
                cur_max_dist_hop0 <= 32768,
                start_pos == pos + offset,
                pos == self@.pos,
                size == self@.data.len(),
                max_len == self@.max_len_at(start_pos as int),
                3 <= max_len <= size - start_pos,
                best_len < max_len,
                nice_len <= max_len,
                1 <= chain_left,
                input@ == self@.data.skip(start_pos as int),
                match best_match {
                    Some(m) => m.len == best_len && prev_len < m.len && 3 <= m.len && 1 <= m.dist
                        <= cur_max_dist_hop0 && !m.irregular258,
                    None => best_len == prev_len,
                },
                self@.match_token(hash, prev_len, offset, max_depth) == self@.scan_chain(
                    start_pos,
                    chain_it.cur,
                    cur_max_dist_hop1_plus,
                    best_len,
                    best_match,
                    max_len,
                    nice_len,
                    chain_left as int,
                ),
            decreases chain_it.cur,
        {
            let dist: u32 = chain_it.dist();
            let match_start: &[u8] = self.input_from(start_pos - dist);
            let match_length: u32 = Self::prefix_compare(match_start, input, best_len, max_len);
            if match_length > best_len {
                let r = PreflateTokenReference::new(match_length, dist, false);
                if match_length >= nice_len {
                    return MatchResult::Success(r);
                }
                best_len = match_length;
                best_match = Some(r);
            }
            if !chain_it.next() {
                match best_match {
                    Some(r) => {
                        return MatchResult::Success(r);
                    },
                    None => {
                        return MatchResult::NoMoreMatchesFound {
                            start_len: match_length,
                            last_dist: dist,
                        };
                    },
                }
            }
            chain_left = chain_left - 1;
            if chain_left == 0 {
                match best_match {
                    Some(r) => {
                        return MatchResult::Success(r);
                    },
                    None => {
                        return MatchResult::MaxChainExceeded;
                    },
                }
            }
        }
    }

    /// Counts the chain entries, up to the one that `target_reference`
    /// refers to, at which the plaintext matches in its length. The
    /// decoding side finds the distance again from this number.
    pub fn calculate_hops(&self, target_reference: &PreflateTokenReference) -> (r: Result<
        u32,
        PreflateError,
    >)
        requires
            self.wf(),
            target_reference.len >= MIN_MATCH,
        ensures
            r == self@.calculate_hops(*target_reference),
            r matches Ok(hops) ==> hops <= 0xffff,
    {
        reveal(PredictorModel::calculate_hops);
        let max_len: u32 = min_u32(self.available_input_size(), MAX_MATCH);
        if max_len < target_reference.len() {
            return Err(PreflateError::PlaintextTooShort);
        }
        let hash: u32 = self.calculate_hash();
        let cur_pos: u32 = self.current_input_pos();
        let cur_max_dist: u32 = min_u32(cur_pos, self.window_size());
        let mut chain_it = self.hash.iterate_from_head(hash, cur_pos, cur_max_dist);
        if !chain_it.valid() {
            return Err(PreflateError::ChainExhausted);
        }
        let mut max_chain: u32 = 0xffff;
        let best_len: u32 = target_reference.len();
        let mut hops: u32 = 0;
        let input: &[u8] = self.input_cursor();
        loop
            invariant
                self.wf(),
                chain_it.wf(),
                chain_it.chain@ == self@.chain,
                chain_it.ref_pos == cur_pos,
                chain_it.max_dist == cur_max_dist,
                chain_it.is_valid,
                cur_max_dist <= cur_pos,
                cur_pos == self@.pos,
                best_len == target_reference.len,
                3 <= best_len <= self@.remaining(),
                1 <= max_chain,
                hops + max_chain <= 0xffff,
                input@ == self@.data.skip(cur_pos as int),
                self@.calculate_hops(*target_reference) == self@.hops_walk(
                    chain_it.cur,
                    *target_reference,
                    cur_max_dist,
                    hops,
                    max_chain as int,
                ),
            decreases chain_it.cur,
        {
            let dist: u32 = chain_it.dist();
            let match_pos: &[u8] = self.input_from(cur_pos - dist);
            let match_length: u32 = Self::prefix_compare(match_pos, input, best_len - 1, best_len);
            proof {
                lemma_compare_is_match(self@.data, cur_pos as int, dist as int, best_len);
            }
            if match_length >= best_len {
                hops += 1;
            }
            if dist >= target_reference.dist() {
                if dist == target_reference.dist() {
                    return Ok(hops);
                } else {
                    return Err(PreflateError::ChainExhausted);
                }
            }
            if !chain_it.next() || max_chain <= 1 {
                return Err(PreflateError::ChainExhausted);
            }
            max_chain -= 1;
        }
    }

    /// The distance of the `hops`-th chain entry at which the plaintext
    /// matches in `len` bytes: the inverse of `calculate_hops`.
    pub fn hop_match(&self, len: u32, hops: u32) -> (r: Result<u32, PreflateError>)
        requires
            self.wf(),
        ensures
            r == self@.hop_match(len, hops),
            r matches Ok(dist) ==> 1 <= dist <= self@.pos && dist <= 32768 && 3 <= len <= 258
                && len <= self@.remaining(),
            r matches Err(e) ==> e == PreflateError::InvalidLength || e
                == PreflateError::PlaintextTooShort || e == PreflateError::HopsOutOfRange,
    {
        reveal(PredictorModel::hop_match);
        if len < MIN_MATCH {
            return Err(PreflateError::InvalidLength);
        }
        let max_len: u32 = min_u32(self.available_input_size(), MAX_MATCH);
        if max_len < len {
            return Err(PreflateError::PlaintextTooShort);
        }
        let cur_pos: u32 = self.current_input_pos();
        proof {
            lemma_window_size(self.params.window_bits);
        }
        let cur_max_dist: u32 = min_u32(cur_pos, self.window_size());
        let hash: u32 = self.calculate_hash();
        let mut chain_it = self.hash.iterate_from_head(hash, cur_pos, cur_max_dist);
        if !chain_it.valid() {
            return Err(PreflateError::HopsOutOfRange);
        }
        let mut current_hop: u32 = 0;
        let input: &[u8] = self.input_cursor();
        loop
            invariant
                self.wf(),
                chain_it.wf(),
                chain_it.chain@ == self@.chain,
                chain_it.ref_pos == cur_pos,
                chain_it.max_dist == cur_max_dist,
                chain_it.is_valid,
                cur_max_dist <= cur_pos,
                cur_max_dist <= 32768,
                cur_pos == self@.pos,
                3 <= len <= self@.remaining(),
                len <= 258,
                current_hop + chain_it.cur <= u32::MAX,
                input@ == self@.data.skip(cur_pos as int),
                self@.hop_match(len, hops) == self@.hop_walk(
                    chain_it.cur,
                    len,
                    cur_max_dist,
                    current_hop,
                    hops,
                ),
            decreases chain_it.cur,
        {
            let dist: u32 = chain_it.dist();
            let match_pos: &[u8] = self.input_from(cur_pos - dist);
            let match_length: u32 = Self::prefix_compare(match_pos, input, len - 1, len);
            proof {
                lemma_compare_is_match(self@.data, cur_pos as int, dist as int, len);
            }
            if match_length >= len {
                current_hop += 1;
                if current_hop == hops {
                    return Ok(dist);
                }
            }
            if !chain_it.next() {
                return Err(PreflateError::HopsOutOfRange);
            }
        }
    }
}

/// A comparison reports nothing or at least three bytes, and no more
/// than it looks for.
pub proof fn lemma_prefix_compare_bounds(s1: Seq<u8>, s2: Seq<u8>, best_len: u32, max_len: u32)
    requires
        3 <= max_len,
        max_len <= s1.len(),
        max_len <= s2.len(),
    ensures
        prefix_compare_spec(s1, s2, best_len, max_len) == 0 || 3 <= prefix_compare_spec(
            s1,
            s2,
            best_len,
            max_len,
        ) <= max_len,
{
    reveal_with_fuel(common_run, 4);
    lemma_common_run(s1, s2, 0, max_len as int);
    lemma_common_run(s1, s2, 3, max_len as int);
}

/// What a search holds as its result: a reference of a length and a
/// distance that the format can express, longer than the match that the
/// search began with, inside of the plaintext.
pub open spec fn match_result_wf(r: MatchResult, prev_len: u32, max_len: u32, start: int) -> bool {
    match r {
        MatchResult::Success(m) => {
            &&& m.wf()
            &&& !m.irregular258
            &&& prev_len < m.len <= max_len
            &&& m.dist <= start
        },
        _ => true,
    }
}

/// The search of a chain gives a result that is well-formed.
pub proof fn lemma_scan_chain_wf(
    m: PredictorModel,
    start: u32,
    cur: u32,
    hop0: u32,
    hop1: u32,
    prev_len: u32,
    best_len: u32,
    best: Option<PreflateTokenReference>,
    max_len: u32,
    nice_len: u32,
    chain_left: int,
)
    requires
        m.wf(),
        0 < cur <= m.pos <= start,
        3 <= max_len <= 258,
        start + max_len <= m.data.len(),
        entry_dist(cur, start) <= hop0,
        hop1 <= hop0 <= start,
        hop0 <= 32768,
        best_len < max_len,
        nice_len <= max_len,
        match best {
            Some(b) => b.len == best_len && prev_len < b.len && 3 <= b.len && 1 <= b.dist <= hop0
                && !b.irregular258,
            None => best_len == prev_len,
        },
    ensures
        match_result_wf(
            m.scan_chain(start, cur, hop1, best_len, best, max_len, nice_len, chain_left),
            prev_len,
            max_len,
            start as int,
        ),
    decreases cur,
{
    let dist = entry_dist(cur, start);
    let s1 = m.data.skip(start - dist);
    let s2 = m.data.skip(start as int);
    lemma_prefix_compare_bounds(s1, s2, best_len, max_len);
    let ml = prefix_compare_spec(s1, s2, best_len, max_len);
    let found = PreflateTokenReference { len: ml, dist, irregular258: false };
    if ml > best_len && ml >= nice_len {
    } else {
        let best2 = if ml > best_len {
            Some(found)
        } else {
            best
        };
        let best_len2 = if ml > best_len {
            ml
        } else {
            best_len
        };
        if !m.has_next(cur, start, hop1) {
        } else if chain_left <= 1 {
        } else {
            lemma_scan_chain_wf(
                m,
                start,
                m.chain.prev[cur as int],
                hop0,
                hop1,
                prev_len,
                best_len2,
                best2,
                max_len,
                nice_len,
                chain_left - 1,
            );
        }
    }
}

/// A search gives a result that is well-formed.
pub proof fn lemma_match_token_wf(m: PredictorModel, hash: u32, prev_len: u32, offset: u32, max_depth: u32)
    requires
        m.wf(),
    ensures
        match_result_wf(
            m.match_token(hash, prev_len, offset, max_depth),
            prev_len,
            m.max_len_at(m.pos + offset),
            m.pos + offset,
        ),
        m.max_len_at(m.pos + offset) <= 258,
        m.pos + offset <= m.data.len() ==> m.max_len_at(m.pos + offset) <= m.data.len() - (m.pos
            + offset),
{
    reveal(PredictorModel::match_token);
    let start = m.pos + offset;
    let max_len = m.max_len_at(start);
    if max_len < MIN_MATCH || max_len <= prev_len {
    } else {
        lemma_window_size(m.params.window_bits);
        crate::hash_chain::lemma_mask_bound(hash, m.chain.hash_mask);
        let head = m.chain.head_of(hash);
        let d0 = entry_dist(head, start as u32);
        let hop0 = m.hop0_dist(start as u32);
        if d0 > hop0 {
        } else {
            lemma_scan_chain_wf(
                m,
                start as u32,
                head,
                hop0,
                m.hop1_dist(start as u32),
                prev_len,
                prev_len,
                None,
                max_len,
                m.nice_len(max_len, max_depth),
                m.chain_bound(prev_len, max_depth),
            );
        }
    }
}

/// Where the walk to a reference that matches ends at it, the walk by
/// the number of hops ends at the distance of the reference.
pub proof fn lemma_hop_walk_inverse(
    m: PredictorModel,
    cur: u32,
    target: PreflateTokenReference,
    max_dist: u32,
    hops: u32,
    chain_left: int,
)
    requires
        m.matches(target.dist, target.len),
        0 <= chain_left,
        hops + chain_left <= 0x1_0000,
        m.hops_walk(cur, target, max_dist, hops, chain_left) is Ok,
    ensures
        m.hops_walk(cur, target, max_dist, hops, chain_left).unwrap() > hops,
        m.hop_walk(
            cur,
            target.len,
            max_dist,
            hops,
            m.hops_walk(cur, target, max_dist, hops, chain_left).unwrap(),
        ) == Ok::<u32, PreflateError>(target.dist),
    decreases cur,
{
    let dist = entry_dist(cur, m.pos);
    if dist == target.dist {
    } else {
        lemma_hop_walk_inverse(
            m,
            m.chain.prev[cur as int],
            target,
            max_dist,
            if m.matches(dist, target.len) {
                (hops + 1) as u32
            } else {
                hops
            },
            chain_left - 1,
        );
    }
}

/// The number of hops to a reference that matches leads back to its
/// distance: what `calculate_hops` counts, `hop_match` finds again.
pub proof fn lemma_hop_match_inverse(m: PredictorModel, target: PreflateTokenReference)
    requires
        target.len >= MIN_MATCH,
        m.matches(target.dist, target.len),
        m.calculate_hops(target) is Ok,
    ensures
        m.calculate_hops(target).unwrap() >= 1,
        m.hop_match(target.len, m.calculate_hops(target).unwrap()) == Ok::<u32, PreflateError>(
            target.dist,
        ),
{
    reveal(PredictorModel::calculate_hops);
    reveal(PredictorModel::hop_match);
    lemma_hop_walk_inverse(
        m,
        m.chain.head_of(m.cur_hash()),
        target,
        m.cur_max_dist(),
        0,
        0xffff,
    );
}

/// A well-formed state stays well-formed where positions are entered or passed.
pub proof fn lemma_advance_wf(m: PredictorModel, len: u32)
    requires
        m.wf(),
        len <= m.remaining(),
    ensures
        m.update_hash(len).wf(),
        m.skip_hash(len).wf(),
        m.update_hash(len).data == m.data,
        m.skip_hash(len).data == m.data,
        m.update_hash(len).params == m.params,
        m.skip_hash(len).params == m.params,
        m.update_hash(len).pos == m.pos + len,
        m.skip_hash(len).pos == m.pos + len,
{
    crate::hash_chain::lemma_update_wf(m.chain, m.data, m.pos as int, len as nat);
    crate::hash_chain::lemma_skip_wf(m.chain, m.data, m.pos as int, len as nat);
}

/// The distance that a walk by hops gives lies on the chain, in reach.
pub proof fn lemma_hop_walk_wf(m: PredictorModel, cur: u32, len: u32, max_dist: u32, hop: u32, hops: u32)
    requires
        0 < cur <= m.pos,
        entry_dist(cur, m.pos) <= max_dist,
        m.hop_walk(cur, len, max_dist, hop, hops) is Ok,
    ensures
        1 <= m.hop_walk(cur, len, max_dist, hop, hops).unwrap() <= max_dist,
    decreases cur,
{
    let dist = entry_dist(cur, m.pos);
    let hop2 = if m.matches(dist, len) {
        (hop + 1) as u32
    } else {
        hop
    };
    if m.matches(dist, len) && hop2 == hops {
    } else if !m.has_next(cur, m.pos, max_dist) {
    } else {
        lemma_hop_walk_wf(m, m.chain.prev[cur as int], len, max_dist, hop2, hops);
    }
}

/// A distance that is found by hops makes a reference that can stand at
/// the cursor.
pub proof fn lemma_hop_match_wf(m: PredictorModel, len: u32, hops: u32)
    requires
        m.wf(),
        m.hop_match(len, hops) is Ok,
    ensures
        3 <= len <= 258,
        len <= m.remaining(),
        1 <= m.hop_match(len, hops).unwrap() <= m.pos,
        m.hop_match(len, hops).unwrap() <= 32768,
{
    reveal(PredictorModel::hop_match);
    lemma_window_size(m.params.window_bits);
    crate::hash_chain::lemma_mask_bound(m.cur_hash(), m.chain.hash_mask);
    lemma_hop_walk_wf(m, m.chain.head_of(m.cur_hash()), len, m.cur_max_dist(), 0, hops);
}

/// The hash chain only grows: after the next `n` positions were entered
/// the cursor stands exactly `n` positions further, and each of these
/// positions at which three bytes stand is reached from the head of the
/// chain of its hash, the rolling hash after its third byte. That is the
/// hash of the three bytes at the position alone, from the third of these
/// positions on, and for all of them where the rolling hash held the two
/// bytes at the cursor before.
pub proof fn lemma_update_hash_monotone(m: PredictorModel, n: u32, p: int)
    requires
        m.wf(),
        n <= m.remaining(),
        m.pos <= p < m.pos + n,
        p + 3 <= m.data.len(),
    ensures
        m.update_hash(n).wf(),
        m.update_hash(n).pos == m.pos + n,
        ({
            let after = m.update_hash(n).chain;
            let hash = crate::hash_chain::hash_roll(
                m.chain.running_hash,
                m.data,
                m.pos + 2,
                p + 3,
                m.chain.hash_shift,
                m.chain.hash_mask,
            );
            &&& hash < after.head.len()
            &&& on_chain(after.prev, after.head[hash as int], (p + 1) as u32)
            &&& p >= m.pos + 2 || crate::hash_chain::primed(m.chain, m.data, m.pos as int) ==> hash
                == crate::hash_chain::hash_of_three(
                m.data[p],
                m.data[p + 1],
                m.data[p + 2],
                m.chain.hash_shift,
                m.chain.hash_mask,
            )
        }),
{
    lemma_advance_wf(m, n);
    crate::hash_chain::lemma_update_hash_reachable(m.chain, m.data, m.pos as int, n as nat, p);
    if p >= m.pos + 2 {
        crate::hash_chain::lemma_hash_roll_window(
            m.chain.running_hash,
            m.data,
            m.pos + 2,
            p + 3,
            m.chain.hash_shift,
            m.chain.hash_mask,
        );
    } else if crate::hash_chain::primed(m.chain, m.data, m.pos as int) {
        reveal_with_fuel(crate::hash_chain::hash_roll, 3);
        if p == m.pos + 1 {
            crate::hash_chain::lemma_insert_primed(m.chain, m.data, m.pos as int);
        }
    }
}

/// What a comparison reports is a number of bytes that are equal.
pub proof fn lemma_prefix_compare_repeats(data: Seq<u8>, start: int, dist: int, best_len: u32, max_len: u32)
    requires
        0 < dist <= start,
        3 <= max_len,
        start + max_len <= data.len(),
        prefix_compare_spec(data.skip(start - dist), data.skip(start), best_len, max_len) > 0,
    ensures
        is_match(
            data,
            start,
            dist,
            prefix_compare_spec(data.skip(start - dist), data.skip(start), best_len, max_len) as int,
        ),
{
    let s1 = data.skip(start - dist);
    let s2 = data.skip(start);
    lemma_common_run(s1, s2, 0, max_len as int);
    let n = common_run(s1, s2, 0, max_len as int);
    let a = data.subrange(start - dist, start - dist + n);
    let b = data.subrange(start, start + n);
    assert forall|i: int| 0 <= i < n implies a[i] == b[i] by {
        assert(s1[i] == s2[i]);
    }
    assert(a =~= b);
}

/// The reference that the search of a chain finds repeats what stands
/// before: its bytes are in the plaintext at its distance.
pub proof fn lemma_scan_chain_repeats(
    m: PredictorModel,
    start: u32,
    cur: u32,
    hop1: u32,
    best_len: u32,
    best: Option<PreflateTokenReference>,
    max_len: u32,
    nice_len: u32,
    chain_left: int,
)
    requires
        m.wf(),
        0 < cur <= m.pos <= start,
        3 <= max_len,
        start + max_len <= m.data.len(),
        best matches Some(b) ==> is_match(m.data, start as int, b.dist as int, b.len as int),
    ensures
        m.scan_chain(start, cur, hop1, best_len, best, max_len, nice_len, chain_left) matches MatchResult::Success(
            r,
        ) ==> is_match(m.data, start as int, r.dist as int, r.len as int),
    decreases cur,
{
    let dist = entry_dist(cur, start);
    let ml = prefix_compare_spec(
        m.data.skip(start - dist),
        m.data.skip(start as int),
        best_len,
        max_len,
    );
    let found = PreflateTokenReference { len: ml, dist, irregular258: false };
    if ml > 0 {
        lemma_prefix_compare_repeats(m.data, start as int, dist as int, best_len, max_len);
    }
    if ml > best_len && ml >= nice_len {
    } else {
        let best2 = if ml > best_len {
            Some(found)
        } else {
            best
        };
        let best_len2 = if ml > best_len {
            ml
        } else {
            best_len
        };
        if !m.has_next(cur, start, hop1) {
        } else if chain_left <= 1 {
        } else {
            lemma_scan_chain_repeats(
                m,
                start,
                m.chain.prev[cur as int],
                hop1,
                best_len2,
                best2,
                max_len,
                nice_len,
                chain_left - 1,
            );
        }
    }
}

/// The reference that a search finds repeats what stands before: its
/// bytes are in the plaintext at its distance.
pub proof fn lemma_match_token_repeats(
    m: PredictorModel,
    hash: u32,
    prev_len: u32,
    offset: u32,
    max_depth: u32,
)
    requires
        m.wf(),
    ensures
        m.match_token(hash, prev_len, offset, max_depth) matches MatchResult::Success(r)
            ==> is_match(m.data, m.pos + offset, r.dist as int, r.len as int),
{
    reveal(PredictorModel::match_token);
    let start = m.pos + offset;
    let max_len = m.max_len_at(start);
    if max_len < MIN_MATCH || max_len <= prev_len {
    } else {
        lemma_window_size(m.params.window_bits);
        crate::hash_chain::lemma_mask_bound(hash, m.chain.hash_mask);
        let head = m.chain.head_of(hash);
        let d0 = entry_dist(head, start as u32);
        if d0 > m.hop0_dist(start as u32) {
        } else {
            lemma_scan_chain_repeats(
                m,
                start as u32,
                head,
                m.hop1_dist(start as u32),
                prev_len,
                None,
                max_len,
                m.nice_len(max_len, max_depth),
                m.chain_bound(prev_len, max_depth),
            );
        }
    }
}

/// The distance that a walk by hops gives is one at which the plaintext matches.
pub proof fn lemma_hop_walk_repeats(m: PredictorModel, cur: u32, len: u32, max_dist: u32, hop: u32, hops: u32)
    requires
        m.hop_walk(cur, len, max_dist, hop, hops) is Ok,
    ensures
        m.matches(m.hop_walk(cur, len, max_dist, hop, hops).unwrap(), len),
    decreases cur,
{
    let dist = entry_dist(cur, m.pos);
    let hop2 = if m.matches(dist, len) {
        (hop + 1) as u32
    } else {
        hop
    };
    if m.matches(dist, len) && hop2 == hops {
    } else if !m.has_next(cur, m.pos, max_dist) {
    } else {
        lemma_hop_walk_repeats(m, m.chain.prev[cur as int], len, max_dist, hop2, hops);
    }
}

/// A distance that is found by hops is one at which the plaintext matches.
pub proof fn lemma_hop_match_repeats(m: PredictorModel, len: u32, hops: u32)
    requires
        m.hop_match(len, hops) is Ok,
    ensures
        m.matches(m.hop_match(len, hops).unwrap(), len),
{
    reveal(PredictorModel::hop_match);
    lemma_hop_walk_repeats(m, m.chain.head_of(m.cur_hash()), len, m.cur_max_dist(), 0, hops);
}

} // verus!
