//! Estimation of the zlib compression level that produced a stream.
//!
//! The tokens of the stream are replayed against the dictionaries that
//! zlib keeps at its levels. A level stays possible as long as each
//! reference is one that the level could have found.

use vstd::prelude::*;
use crate::predictor_state::{lemma_window_size, min_u32, spec_min};
use crate::preflate_constants::MIN_LOOKAHEAD;
use crate::preflate_hash_chain::{ExtModel, PreflateHashChainExt};
use crate::preflate_parse_config::{
    PreflateParserConfig, fast_parser_settings, fast_preflate_parser_settings,
    slow_parser_settings, slow_preflate_parser_settings,
};
use crate::preflate_token::{BlockModel, BlockType, PreflateToken, PreflateTokenBlock};

verus! {

/// What the replay of a stream shows of its encoder.
#[derive(Clone, Copy, Debug, PartialEq, Eq, Structural)]
pub struct PreflateCompLevelInfo {
    /// Bit `i` is set while level `i` can have produced the stream.
    pub possible_compression_levels: u32,
    pub recommended_compression_level: u32,
    pub zlib_compatible: bool,
    pub reference_count: u32,
    /// Number of references that no dictionary holds.
    pub unfound_references: u32,
    pub max_chain_depth: u32,
    pub longest_len_3_dist: u32,
    pub longest_dist_at_hop_0: u32,
    pub longest_dist_at_hop_1_plus: u32,
    pub match_to_start: bool,
    pub very_far_matches: bool,
    pub far_len_3_matches: bool,
}

impl PreflateCompLevelInfo {
    /// The record before the first token: the levels 1 to 9 are possible.
    pub open spec fn start() -> PreflateCompLevelInfo {
        PreflateCompLevelInfo {
            possible_compression_levels: 0x1fe,
            recommended_compression_level: 0,
            zlib_compatible: false,
            reference_count: 0,
            unfound_references: 0,
            max_chain_depth: 0,
            longest_len_3_dist: 0,
            longest_dist_at_hop_0: 0,
            longest_dist_at_hop_1_plus: 0,
            match_to_start: false,
            very_far_matches: false,
            far_len_3_matches: false,
        }
    }
}

impl Default for PreflateCompLevelInfo {
    fn default() -> (r: Self)
        ensures
            r == (PreflateCompLevelInfo { possible_compression_levels: 0, ..Self::start() }),
    {
        PreflateCompLevelInfo {
            possible_compression_levels: 0,
            recommended_compression_level: 0,
            zlib_compatible: false,
            reference_count: 0,
            unfound_references: 0,
            max_chain_depth: 0,
            longest_len_3_dist: 0,
            longest_dist_at_hop_0: 0,
            longest_dist_at_hop_1_plus: 0,
            match_to_start: false,
            very_far_matches: false,
            far_len_3_matches: false,
        }
    }
}

/// Level `level` is among `levels`.
pub open spec fn has_level(levels: u32, level: u32) -> bool {
    levels & (1u32 << level) != 0
}

/// `levels` without level `level`.
pub open spec fn without_level(levels: u32, level: u32) -> u32 {
    levels & !(1u32 << level)
}

/// At most one level is left in `levels`.
pub open spec fn at_most_one_level(levels: u32) -> bool {
    levels & levels.wrapping_sub(1) == 0
}

/// The larger of two numbers.
pub open spec fn spec_max(a: u32, b: u32) -> u32 {
    if a >= b {
        a
    } else {
        b
    }
}

/// Number of hops from the entry `hash_head` at the head of a chain to
/// the position that `token` refers to; 0xffff where the position is out
/// of reach or was not entered into the chain.
pub open spec fn spec_match_depth(
    ext: ExtModel,
    hash_head: u32,
    token: PreflateToken,
    window_size: u32,
) -> u32 {
    let cur_max_dist = spec_min(ext.pos as int, window_size as int);
    let dist = token.spec_dist();
    if dist == 0 || dist > cur_max_dist {
        0xffff
    } else {
        let start_depth = ext.chain.depth[hash_head as int];
        let end_depth = ext.chain.depth[ext.pos - dist + 1];
        if start_depth < end_depth {
            0xffff
        } else {
            spec_min(start_depth - end_depth, 0xffff) as u32
        }
    }
}

/// `levels` without the slow levels from `4 + i` on whose chains are
/// shorter than `depth`.
pub open spec fn without_short_chains(levels: u32, depth: u32, i: int) -> u32
    decreases 6 - i,
{
    if i < 0 || i >= 6 {
        levels
    } else if has_level(levels, (4 + i) as u32) && depth > slow_parser_settings()[i].max_chain {
        without_short_chains(without_level(levels, (4 + i) as u32), depth, i + 1)
    } else {
        without_short_chains(levels, depth, i + 1)
    }
}

/// The lowest level in `levels`, counted from `level` for the lowest bit.
pub open spec fn lowest_level(levels: u32, level: u32) -> u32
    decreases levels,
{
    if levels == 0 || levels % 2 != 0 {
        level
    } else {
        lowest_level(levels / 2, (level + 1) as u32)
    }
}

/// The first slow level from `4 + i` on whose chains are at least `depth` long, or 9.
pub open spec fn level_for_depth(depth: u32, i: int) -> u32
    decreases 6 - i,
{
    if i < 0 || i >= 6 {
        9
    } else if depth <= slow_parser_settings()[i].max_chain {
        (4 + i) as u32
    } else {
        level_for_depth(depth, i + 1)
    }
}

/// The record with the conclusions drawn from what was seen. A match is
/// very far where any distance, at the head of a chain or further down,
/// lies beyond the window less the look-ahead that zlib keeps.
pub open spec fn spec_recommend(info: PreflateCompLevelInfo, window_size: u32) -> PreflateCompLevelInfo {
    let max_dist = if window_size >= MIN_LOOKAHEAD {
        (window_size - MIN_LOOKAHEAD) as u32
    } else {
        0
    };
    let very_far_matches = info.longest_dist_at_hop_0 > max_dist || info.longest_dist_at_hop_1_plus
        > max_dist;
    let far_len_3_matches = info.longest_len_3_dist > 4096;
    let zlib_compatible = info.possible_compression_levels > 1 && !info.match_to_start
        && !very_far_matches && (!far_len_3_matches || (info.possible_compression_levels & 0xe)
        != 0);
    let seen = PreflateCompLevelInfo {
        recommended_compression_level: 9,
        very_far_matches,
        far_len_3_matches,
        zlib_compatible,
        ..info
    };
    if info.unfound_references != 0 {
        seen
    } else if zlib_compatible {
        PreflateCompLevelInfo {
            recommended_compression_level: lowest_level(info.possible_compression_levels / 2, 1),
            ..seen
        }
    } else {
        PreflateCompLevelInfo {
            recommended_compression_level: level_for_depth(info.max_chain_depth, 0),
            ..seen
        }
    }
}

/// The state of the estimation as a mathematical value.
pub struct EstimatorModel {
    pub slow: ExtModel,
    pub fast1: ExtModel,
    pub fast2: ExtModel,
    pub fast3: ExtModel,
    pub info: PreflateCompLevelInfo,
    pub wsize: u32,
}

/// The dictionary of a fast level after a token of `len` bytes: a fast
/// level enters a long match with its first position only.
pub open spec fn fast_update_or_skip(ext: ExtModel, len: u32, config: PreflateParserConfig) -> ExtModel {
    if len <= config.max_lazy {
        ext.update_hash(len)
    } else {
        ext.skip_hash(len)
    }
}

/// The fast level with `config` can have found `token`.
pub open spec fn fast_level_finds(
    ext: ExtModel,
    token: PreflateToken,
    config: PreflateParserConfig,
    hash: u32,
    window_size: u32,
) -> bool {
    spec_match_depth(ext, ext.chain.head_of(hash), token, window_size) <= config.max_chain
}

impl EstimatorModel {
    /// All dictionaries are well-formed over the same plaintext, and none
    /// is ahead of the one of the slow levels.
    pub open spec fn chains_wf(self) -> bool {
        &&& self.slow.wf()
        &&& self.fast1.wf()
        &&& self.fast2.wf()
        &&& self.fast3.wf()
        &&& self.fast1.data == self.slow.data
        &&& self.fast2.data == self.slow.data
        &&& self.fast3.data == self.slow.data
        &&& self.fast1.pos <= self.slow.pos
        &&& self.fast2.pos <= self.slow.pos
        &&& self.fast3.pos <= self.slow.pos
        &&& 256 <= self.wsize <= 32768
    }

    /// The dictionaries are well-formed, and no more references were
    /// counted than bytes were passed.
    pub open spec fn wf(self) -> bool {
        &&& self.chains_wf()
        &&& self.info.unfound_references <= self.info.reference_count <= self.slow.pos
    }

    /// The state before the first token, with hash tables of `mbits + 7` bits.
    pub open spec fn start(wbits: u32, mbits: u32, data: Seq<u8>) -> EstimatorModel {
        let ext = ExtModel::start(data, (mbits + 7) as u32);
        EstimatorModel {
            slow: ext,
            fast1: ext,
            fast2: ext,
            fast3: ext,
            info: PreflateCompLevelInfo::start(),
            wsize: 1u32 << wbits,
        }
    }

    /// The state after `len` bytes were entered into every dictionary that is still in use.
    pub open spec fn update_hash(self, len: u32) -> EstimatorModel {
        let levels = self.info.possible_compression_levels;
        EstimatorModel {
            fast1: if has_level(levels, 1) {
                self.fast1.update_hash(len)
            } else {
                self.fast1
            },
            fast2: if has_level(levels, 2) {
                self.fast2.update_hash(len)
            } else {
                self.fast2
            },
            fast3: if has_level(levels, 3) {
                self.fast3.update_hash(len)
            } else {
                self.fast3
            },
            slow: self.slow.update_hash(len),
            ..self
        }
    }

    /// The state after a match of `len` bytes was entered into every
    /// dictionary that is still in use, in the way of its level.
    pub open spec fn update_or_skip_hash(self, len: u32) -> EstimatorModel {
        let levels = self.info.possible_compression_levels;
        EstimatorModel {
            fast1: if has_level(levels, 1) {
                fast_update_or_skip(self.fast1, len, fast_parser_settings()[0])
            } else {
                self.fast1
            },
            fast2: if has_level(levels, 2) {
                fast_update_or_skip(self.fast2, len, fast_parser_settings()[1])
            } else {
                self.fast2
            },
            fast3: if has_level(levels, 3) {
                fast_update_or_skip(self.fast3, len, fast_parser_settings()[2])
            } else {
                self.fast3
            },
            slow: self.slow.update_hash(len),
            ..self
        }
    }

    /// The possible levels after the fast levels that cannot have found `token` were struck.
    pub open spec fn fast_levels_after(self, token: PreflateToken) -> u32 {
        let hash = self.slow.cur_hash();
        let levels = self.info.possible_compression_levels;
        let l1 = if has_level(levels, 1) && !fast_level_finds(
            self.fast1,
            token,
            fast_parser_settings()[0],
            hash,
            self.wsize,
        ) {
            without_level(levels, 1)
        } else {
            levels
        };
        let l2 = if has_level(l1, 2) && !fast_level_finds(
            self.fast2,
            token,
            fast_parser_settings()[1],
            hash,
            self.wsize,
        ) {
            without_level(l1, 2)
        } else {
            l1
        };
        if has_level(l2, 3) && !fast_level_finds(
            self.fast3,
            token,
            fast_parser_settings()[2],
            hash,
            self.wsize,
        ) {
            without_level(l2, 3)
        } else {
            l2
        }
    }

    /// The record after the reference `token` was checked against every dictionary.
    pub open spec fn check_match(self, token: PreflateToken) -> EstimatorModel {
        if self.slow.pos < token.spec_dist() {
            self
        } else {
            let info = self.info;
            let hash = self.slow.cur_hash();
            let depth = spec_match_depth(
                self.slow,
                self.slow.chain.head_of(hash),
                token,
                self.wsize,
            );
            EstimatorModel {
                info: PreflateCompLevelInfo {
                    possible_compression_levels: without_short_chains(
                        self.fast_levels_after(token),
                        depth,
                        0,
                    ),
                    reference_count: (info.reference_count + 1) as u32,
                    unfound_references: if depth >= 0x8001 {
                        (info.unfound_references + 1) as u32
                    } else {
                        info.unfound_references
                    },
                    max_chain_depth: if depth >= 0x8001 {
                        info.max_chain_depth
                    } else {
                        spec_max(info.max_chain_depth, depth)
                    },
                    match_to_start: info.match_to_start || token.spec_dist() == self.slow.pos,
                    longest_dist_at_hop_0: if depth == 0 {
                        spec_max(info.longest_dist_at_hop_0, token.spec_dist())
                    } else {
                        info.longest_dist_at_hop_0
                    },
                    longest_dist_at_hop_1_plus: if depth == 0 {
                        info.longest_dist_at_hop_1_plus
                    } else {
                        spec_max(info.longest_dist_at_hop_1_plus, token.spec_dist())
                    },
                    longest_len_3_dist: if token.spec_len() == 3 {
                        spec_max(info.longest_len_3_dist, token.spec_dist())
                    } else {
                        info.longest_len_3_dist
                    },
                    ..info
                },
                ..self
            }
        }
    }

    /// The state with one more reference that no dictionary holds.
    pub open spec fn with_unfound(self) -> EstimatorModel {
        EstimatorModel {
            info: PreflateCompLevelInfo {
                unfound_references: (self.info.unfound_references + 1) as u32,
                ..self.info
            },
            ..self
        }
    }
}

/// The state of a scan over the tokens of a stream: the estimation, and
/// whether the scan has ended before the last token.
pub struct ScanModel {
    pub est: EstimatorModel,
    pub stopped: bool,
}

impl ScanModel {
    /// The scan after `token`. A token that covers more plaintext than is
    /// left counts as a reference that no dictionary holds and ends the
    /// scan; with `early_out` the scan ends as soon as at most one level is left.
    pub open spec fn scan_token(self, token: PreflateToken, early_out: bool) -> ScanModel {
        if self.stopped {
            self
        } else if token.spec_len() > self.est.slow.remaining() {
            ScanModel { est: self.est.with_unfound(), stopped: true }
        } else {
            let est = if token.spec_len() == 1 {
                self.est.update_hash(1)
            } else {
                self.est.check_match(token).update_or_skip_hash(token.spec_len())
            };
            ScanModel {
                est,
                stopped: early_out && at_most_one_level(est.info.possible_compression_levels),
            }
        }
    }

    /// The scan after the first `n` tokens of `tokens`.
    pub open spec fn scan_tokens(self, tokens: Seq<PreflateToken>, n: int, early_out: bool) -> ScanModel
        decreases n,
    {
        if n <= 0 {
            self
        } else {
            self.scan_tokens(tokens, n - 1, early_out).scan_token(tokens[n - 1], early_out)
        }
    }

    /// The scan after `block`.
    pub open spec fn scan_block(self, block: BlockModel, early_out: bool) -> ScanModel {
        if self.stopped {
            self
        } else if block.block_type == BlockType::Stored {
            if block.uncompressed_len > self.est.slow.remaining() {
                ScanModel { est: self.est.with_unfound(), stopped: true }
            } else {
                ScanModel { est: self.est.update_hash(block.uncompressed_len), ..self }
            }
        } else {
            self.scan_tokens(block.tokens, block.tokens.len() as int, early_out)
        }
    }

    /// The scan after the first `n` blocks of `blocks`.
    pub open spec fn scan_blocks(self, blocks: Seq<BlockModel>, n: int, early_out: bool) -> ScanModel
        decreases n,
    {
        if n <= 0 {
            self
        } else {
            self.scan_blocks(blocks, n - 1, early_out).scan_block(blocks[n - 1], early_out)
        }
    }
}

/// A scan that has ended stays as it is.
pub proof fn lemma_stopped_tokens(s: ScanModel, tokens: Seq<PreflateToken>, n: int, early_out: bool)
    requires
        s.stopped,
    ensures
        s.scan_tokens(tokens, n, early_out) == s,
    decreases n,
{
    if n > 0 {
        lemma_stopped_tokens(s, tokens, n - 1, early_out);
    }
}

/// A scan that has ended stays as it is.
pub proof fn lemma_stopped_blocks(s: ScanModel, blocks: Seq<BlockModel>, n: int, early_out: bool)
    requires
        s.stopped,
    ensures
        s.scan_blocks(blocks, n, early_out) == s,
    decreases n,
{
    if n > 0 {
        lemma_stopped_blocks(s, blocks, n - 1, early_out);
    }
}

/// A scan that ends among the first `k` tokens has ended after any more.
pub proof fn lemma_stopped_later_tokens(
    s: ScanModel,
    tokens: Seq<PreflateToken>,
    k: int,
    n: int,
    early_out: bool,
)
    requires
        0 <= k <= n,
        s.scan_tokens(tokens, k, early_out).stopped,
    ensures
        s.scan_tokens(tokens, n, early_out) == s.scan_tokens(tokens, k, early_out),
    decreases n - k,
{
    if k < n {
        lemma_stopped_later_tokens(s, tokens, k, n - 1, early_out);
    }
}

/// A scan that ends among the first `k` blocks has ended after any more.
pub proof fn lemma_stopped_later_blocks(
    s: ScanModel,
    blocks: Seq<BlockModel>,
    k: int,
    n: int,
    early_out: bool,
)
    requires
        0 <= k <= n,
        s.scan_blocks(blocks, k, early_out).stopped,
    ensures
        s.scan_blocks(blocks, n, early_out) == s.scan_blocks(blocks, k, early_out),
    decreases n - k,
{
    if k < n {
        lemma_stopped_later_blocks(s, blocks, k, n - 1, early_out);
        lemma_stopped_tokens(
            s.scan_blocks(blocks, k, early_out),
            blocks[n - 1].tokens,
            blocks[n - 1].tokens.len() as int,
            early_out,
        );
    }
}

/// The blocks of a stream as mathematical values.
pub open spec fn block_models(blocks: Seq<PreflateTokenBlock>) -> Seq<BlockModel> {
    Seq::new(blocks.len(), |i: int| blocks[i]@)
}

/// What the replay of `blocks` over `data` shows of the encoder.
pub open spec fn spec_estimate(
    wbits: u32,
    mbits: u32,
    data: Seq<u8>,
    blocks: Seq<BlockModel>,
    early_out: bool,
) -> PreflateCompLevelInfo {
    let start = ScanModel { est: EstimatorModel::start(wbits, mbits, data), stopped: false };
    let end = start.scan_blocks(blocks, blocks.len() as int, early_out);
    spec_recommend(end.est.info, end.est.wsize)
}

/// The replay of a stream against the dictionaries of the zlib levels.
pub struct PreflateCompLevelEstimatorState<'a> {
    pub slow_hash: PreflateHashChainExt<'a>,
    pub fast_l1_hash: PreflateHashChainExt<'a>,
    pub fast_l2_hash: PreflateHashChainExt<'a>,
    pub fast_l3_hash: PreflateHashChainExt<'a>,
    pub blocks: &'a Vec<PreflateTokenBlock>,
    pub info: PreflateCompLevelInfo,
    pub wsize: u32,
}

impl<'a> View for PreflateCompLevelEstimatorState<'a> {
    type V = EstimatorModel;

    open spec fn view(&self) -> EstimatorModel {
        EstimatorModel {
            slow: self.slow_hash@,
            fast1: self.fast_l1_hash@,
            fast2: self.fast_l2_hash@,
            fast3: self.fast_l3_hash@,
            info: self.info,
            wsize: self.wsize,
        }
    }
}

/// The larger of two numbers.
fn max_u32(a: u32, b: u32) -> (r: u32)
    ensures
        r == spec_max(a, b),
{
    if a >= b {
        a
    } else {
        b
    }
}

impl<'a> PreflateCompLevelEstimatorState<'a> {
    /// Every block of the stream is well-formed.
    pub open spec fn blocks_wf(&self) -> bool {
        forall|i: int| 0 <= i < self.blocks@.len() ==> (#[trigger] self.blocks@[i])@.wf()
    }

    /// The state before the first token, for a window of `wbits` bits and
    /// the memory level `mbits`. As in zlib, the memory level is the size
    /// of the hash table less 7 bits: the levels 2 to 8 make the hash
    /// tables of 9 to 15 bits that the hash chain knows.
    pub fn new(wbits: u32, mbits: u32, plain_text: &'a [u8], blocks: &'a Vec<PreflateTokenBlock>) -> (r:
        Self)
        requires
            8 <= wbits <= 15,
            2 <= mbits <= 8,
            plain_text@.len() < u32::MAX,
        ensures
            r@.wf(),
            r@ == EstimatorModel::start(wbits, mbits, plain_text@),
            r.blocks == blocks,
    {
        proof {
            lemma_window_size(wbits);
        }
        PreflateCompLevelEstimatorState {
            slow_hash: PreflateHashChainExt::new(plain_text, mbits + 7),
            fast_l1_hash: PreflateHashChainExt::new(plain_text, mbits + 7),
            fast_l2_hash: PreflateHashChainExt::new(plain_text, mbits + 7),
            fast_l3_hash: PreflateHashChainExt::new(plain_text, mbits + 7),
            blocks,
            info: PreflateCompLevelInfo {
                possible_compression_levels: 0x1fe,
                recommended_compression_level: 0,
                zlib_compatible: false,
                reference_count: 0,
                unfound_references: 0,
                max_chain_depth: 0,
                longest_len_3_dist: 0,
                longest_dist_at_hop_0: 0,
                longest_dist_at_hop_1_plus: 0,
                match_to_start: false,
                very_far_matches: false,
                far_len_3_matches: false,
            },
            wsize: 1u32 << wbits,
        }
    }

    /// Size of the window in bytes.
    pub fn window_size(&self) -> (r: u32)
        ensures
            r == self.wsize,
    {
        self.wsize
    }

    /// Enters the next `len` bytes into every dictionary that is still in use.
    pub fn update_hash(&mut self, len: u32)
        requires
            old(self)@.chains_wf(),
            len <= old(self)@.slow.remaining(),
        ensures
            final(self)@ == old(self)@.update_hash(len),
            final(self)@.chains_wf(),
            final(self)@.slow.pos == old(self)@.slow.pos + len,
            final(self).info == old(self).info,
            final(self).blocks == old(self).blocks,
    {
        if self.info.possible_compression_levels & (1u32 << 1) != 0 {
            self.fast_l1_hash.update_hash(len);
        }
        if self.info.possible_compression_levels & (1u32 << 2) != 0 {
            self.fast_l2_hash.update_hash(len);
        }
        if self.info.possible_compression_levels & (1u32 << 3) != 0 {
            self.fast_l3_hash.update_hash(len);
        }
        self.slow_hash.update_hash(len);
    }

    /// Enters a match of `len` bytes into the dictionary of a fast level:
    /// a long match is entered with its first position only.
    pub fn update_or_skip_single_fast_hash(
        hash: &mut PreflateHashChainExt,
        len: u32,
        config: &PreflateParserConfig,
    )
        requires
            old(hash)@.wf(),
            len <= old(hash)@.remaining(),
        ensures
            final(hash)@ == fast_update_or_skip(old(hash)@, len, *config),
            final(hash)@.wf(),
            final(hash)@.pos == old(hash)@.pos + len,
            final(hash)@.data == old(hash)@.data,
    {
        if len <= config.max_lazy {
            hash.update_hash(len);
        } else {
            hash.skip_hash(len);
        }
    }

    /// Enters a match of `len` bytes into every dictionary that is still
    /// in use, in the way of its level.
    pub fn update_or_skip_hash(&mut self, len: u32)
        requires
            old(self)@.chains_wf(),
            len <= old(self)@.slow.remaining(),
        ensures
            final(self)@ == old(self)@.update_or_skip_hash(len),
            final(self)@.chains_wf(),
            final(self)@.slow.pos == old(self)@.slow.pos + len,
            final(self).info == old(self).info,
            final(self).blocks == old(self).blocks,
    {
        if self.info.possible_compression_levels & (1u32 << 1) != 0 {
            Self::update_or_skip_single_fast_hash(
                &mut self.fast_l1_hash,
                len,
                &fast_preflate_parser_settings(0),
            );
        }
        if self.info.possible_compression_levels & (1u32 << 2) != 0 {
            Self::update_or_skip_single_fast_hash(
                &mut self.fast_l2_hash,
                len,
                &fast_preflate_parser_settings(1),
            );
        }
        if self.info.possible_compression_levels & (1u32 << 3) != 0 {
            Self::update_or_skip_single_fast_hash(
                &mut self.fast_l3_hash,
                len,
                &fast_preflate_parser_settings(2),
            );
        }
        self.slow_hash.update_hash(len);
    }

    /// Number of hops from the entry `hash_head` at the head of a chain to
    /// the position that `target_reference` refers to; 0xffff where the
    /// position is out of reach or was not entered into the chain.
    pub fn match_depth(
        hash_head: u32,
        target_reference: &PreflateToken,
        hash: &PreflateHashChainExt,
        window_size: u32,
    ) -> (r: u32)
        requires
            hash@.wf(),
            hash_head <= hash@.data.len(),
        ensures
            r == spec_match_depth(hash@, hash_head, *target_reference, window_size),
            r <= 0xffff,
    {
        let cur_pos: u32 = hash.input().pos();
        let cur_max_dist: u32 = min_u32(cur_pos, window_size);
        let dist: u32 = target_reference.dist();
        if dist == 0 || dist > cur_max_dist {
            return 0xffff;
        }
        let start_depth: u32 = hash.get_node_depth(hash_head);
        let chain_it = hash.iterate_from_pos(cur_pos - dist, cur_pos, cur_max_dist);
        let end_depth: u32 = chain_it.depth();
        if start_depth < end_depth {
            return 0xffff;
        }
        min_u32(start_depth - end_depth, 0xffff)
    }

    /// Whether the fast level with `config` can have found `token`.
    pub fn check_match_single_fast_hash(
        token: &PreflateToken,
        hash: &PreflateHashChainExt,
        config: &PreflateParserConfig,
        hash_head: u32,
        window_size: u32,
    ) -> (r: bool)
        requires
            hash@.wf(),
        ensures
            r == fast_level_finds(hash@, *token, *config, hash_head, window_size),
    {
        let mdepth: u32 = Self::match_depth(hash.get_head(hash_head), token, hash, window_size);
        mdepth <= config.max_chain
    }

    /// The possible levels after the fast levels that cannot have found
    /// `token` were struck.
    fn fast_levels_after(&self, token: &PreflateToken, hash_head: u32) -> (r: u32)
        requires
            self@.wf(),
            hash_head == self@.slow.cur_hash(),
        ensures
            r == self@.fast_levels_after(*token),
    {
        let window: u32 = self.window_size();
        let mut levels: u32 = self.info.possible_compression_levels;
        if levels & (1u32 << 1) != 0 {
            if !Self::check_match_single_fast_hash(
                token,
                &self.fast_l1_hash,
                &fast_preflate_parser_settings(0),
                hash_head,
                window,
            ) {
                levels = levels & !(1u32 << 1);
            }
        }
        if levels & (1u32 << 2) != 0 {
            if !Self::check_match_single_fast_hash(
                token,
                &self.fast_l2_hash,
                &fast_preflate_parser_settings(1),
                hash_head,
                window,
            ) {
                levels = levels & !(1u32 << 2);
            }
        }
        if levels & (1u32 << 3) != 0 {
            if !Self::check_match_single_fast_hash(
                token,
                &self.fast_l3_hash,
                &fast_preflate_parser_settings(2),
                hash_head,
                window,
            ) {
                levels = levels & !(1u32 << 3);
            }
        }
        levels
    }

    /// `levels` without the slow levels whose chains are shorter than `depth`.
    fn strike_short_chains(levels: u32, depth: u32) -> (r: u32)
        ensures
            r == without_short_chains(levels, depth, 0),
    {
        let mut levels: u32 = levels;
        let ghost start = levels;
        let mut i: usize = 0;
        while i < 6
            invariant
                i <= 6,
                without_short_chains(start, depth, 0) == without_short_chains(
                    levels,
                    depth,
                    i as int,
                ),
            decreases 6 - i,
        {
            if levels & (1u32 << (4 + i as u32)) != 0 {
                let config = slow_preflate_parser_settings(i);
                if depth > config.max_chain {
                    levels = levels & !(1u32 << (4 + i as u32));
                }
            }
            i += 1;
        }
        levels
    }

    /// Checks the reference `token` against every dictionary and strikes
    /// the levels that cannot have found it.
    pub fn check_match(&mut self, token: &PreflateToken)
        requires
            old(self)@.wf(),
            old(self)@.slow.remaining() >= 3,
        ensures
            final(self)@ == old(self)@.check_match(*token),
            final(self)@.slow == old(self)@.slow,
            final(self)@.fast1 == old(self)@.fast1,
            final(self)@.fast2 == old(self)@.fast2,
            final(self)@.fast3 == old(self)@.fast3,
            final(self)@.wsize == old(self)@.wsize,
            final(self).blocks == old(self).blocks,
            final(self).info.unfound_references <= final(self).info.reference_count
                <= old(self).info.reference_count + 1,
    {
        if self.slow_hash.input().pos() < token.dist() {
            return ;
        }
        let hash_head: u32 = self.slow_hash.cur_hash();
        let fast_levels: u32 = self.fast_levels_after(token, hash_head);
        let mdepth: u32 = Self::match_depth(
            self.slow_hash.get_head(hash_head),
            token,
            &self.slow_hash,
            self.window_size(),
        );
        let info = self.info;
        let dist: u32 = token.dist();
        self.info = PreflateCompLevelInfo {
            possible_compression_levels: Self::strike_short_chains(fast_levels, mdepth),
            reference_count: info.reference_count + 1,
            unfound_references: if mdepth >= 0x8001 {
                info.unfound_references + 1
            } else {
                info.unfound_references
            },
            max_chain_depth: if mdepth >= 0x8001 {
                info.max_chain_depth
            } else {
                max_u32(info.max_chain_depth, mdepth)
            },
            match_to_start: info.match_to_start || dist == self.slow_hash.input().pos(),
            longest_dist_at_hop_0: if mdepth == 0 {
                max_u32(info.longest_dist_at_hop_0, dist)
            } else {
                info.longest_dist_at_hop_0
            },
            longest_dist_at_hop_1_plus: if mdepth == 0 {
                info.longest_dist_at_hop_1_plus
            } else {
                max_u32(info.longest_dist_at_hop_1_plus, dist)
            },
            longest_len_3_dist: if token.len() == 3 {
                max_u32(info.longest_len_3_dist, dist)
            } else {
                info.longest_len_3_dist
            },
            recommended_compression_level: info.recommended_compression_level,
            zlib_compatible: info.zlib_compatible,
            very_far_matches: info.very_far_matches,
            far_len_3_matches: info.far_len_3_matches,
        };
    }

    /// Draws the conclusions from what was seen.
    #[verifier::loop_isolation(false)]
    pub fn recommend(&mut self)
        ensures
            final(self).info == spec_recommend(old(self).info, old(self).wsize),
            final(self)@ == (EstimatorModel { info: final(self).info, ..old(self)@ }),
            final(self).blocks == old(self).blocks,
    {
        let max_dist: u32 = if self.wsize >= MIN_LOOKAHEAD {
            self.wsize - MIN_LOOKAHEAD
        } else {
            0
        };
        self.info.recommended_compression_level = 9;
        self.info.very_far_matches = self.info.longest_dist_at_hop_0 > max_dist
            || self.info.longest_dist_at_hop_1_plus > max_dist;
        self.info.far_len_3_matches = self.info.longest_len_3_dist > 4096;
        self.info.zlib_compatible = self.info.possible_compression_levels > 1
            && !self.info.match_to_start && !self.info.very_far_matches && (
        !self.info.far_len_3_matches || (self.info.possible_compression_levels & 0xe) != 0);
        if self.info.unfound_references != 0 {
            return ;
        }
        if self.info.zlib_compatible {
            let mut l: u32 = self.info.possible_compression_levels / 2;
            let mut level: u32 = 1;
            while l != 0 && l % 2 == 0
                invariant
                    level + l <= 0x8000_0001,
                    lowest_level(old(self).info.possible_compression_levels / 2, 1)
                        == lowest_level(l, level),
                decreases l,
            {
                level += 1;
                l = l / 2;
            }
            self.info.recommended_compression_level = level;
            return ;
        }
        let mut i: usize = 0;
        while i < 6
            invariant
                i <= 6,
                self.info == (PreflateCompLevelInfo {
                    recommended_compression_level: 9,
                    ..spec_recommend(old(self).info, old(self).wsize)
                }),
                self.info.max_chain_depth == old(self).info.max_chain_depth,
                level_for_depth(self.info.max_chain_depth, 0) == level_for_depth(
                    self.info.max_chain_depth,
                    i as int,
                ),
                self.slow_hash == old(self).slow_hash,
                self.fast_l1_hash == old(self).fast_l1_hash,
                self.fast_l2_hash == old(self).fast_l2_hash,
                self.fast_l3_hash == old(self).fast_l3_hash,
                self.wsize == old(self).wsize,
                self.blocks == old(self).blocks,
            decreases 6 - i,
        {
            let config = slow_preflate_parser_settings(i);
            if self.info.max_chain_depth <= config.max_chain {
                self.info.recommended_compression_level = 4 + i as u32;
                return ;
            }
            i += 1;
        }
    }

    /// Replays one token. The result says whether the scan has ended with it.
    fn scan_token(&mut self, token: &PreflateToken, early_out: bool) -> (stopped: bool)
        requires
            old(self)@.wf(),
            token.wf(),
        ensures
            (ScanModel { est: final(self)@, stopped }) == (ScanModel {
                est: old(self)@,
                stopped: false,
            }).scan_token(*token, early_out),
            !stopped ==> final(self)@.wf(),
            final(self).blocks == old(self).blocks,
    {
        if token.len() > self.slow_hash.input().remaining() {
            self.info.unfound_references += 1;
            return true;
        }
        if token.len() == 1 {
            self.update_hash(1);
        } else {
            self.check_match(token);
            self.update_or_skip_hash(token.len());
        }
        early_out && (self.info.possible_compression_levels
            & self.info.possible_compression_levels.wrapping_sub(1)) == 0
    }

    /// Replays the tokens of one block. The result says whether the scan
    /// has ended in it.
    #[verifier::loop_isolation(false)]
    fn scan_block(&mut self, block: &PreflateTokenBlock, early_out: bool) -> (stopped: bool)
        requires
            old(self)@.wf(),
            block@.wf(),
        ensures
            (ScanModel { est: final(self)@, stopped }) == (ScanModel {
                est: old(self)@,
                stopped: false,
            }).scan_block(block@, early_out),
            !stopped ==> final(self)@.wf(),
            final(self).blocks == old(self).blocks,
    {
        let ghost start = ScanModel { est: self@, stopped: false };
        if block.block_type == BlockType::Stored {
            if block.uncompressed_len > self.slow_hash.input().remaining() {
                self.info.unfound_references += 1;
                return true;
            }
            self.update_hash(block.uncompressed_len);
            return false;
        }
        let n: usize = block.tokens.len();
        let mut j: usize = 0;
        while j < n
            invariant
                j <= n,
                n == block@.tokens.len(),
                block@.wf(),
                self@.wf(),
                self.blocks == old(self).blocks,
                (ScanModel { est: self@, stopped: false }) == start.scan_tokens(
                    block@.tokens,
                    j as int,
                    early_out,
                ),
            decreases n - j,
        {
            if self.scan_token(&block.tokens[j], early_out) {
                proof {
                    assert(start.scan_tokens(block@.tokens, j + 1, early_out).stopped);
                    lemma_stopped_later_tokens(start, block@.tokens, j + 1, n as int, early_out);
                }
                return true;
            }
            j += 1;
        }
        false
    }

    /// Replays every token of the stream, or, with `early_out`, as many
    /// as it takes until at most one level is left.
    #[verifier::loop_isolation(false)]
    pub fn check_dump(&mut self, early_out: bool)
        requires
            old(self)@.wf(),
            old(self).blocks_wf(),
        ensures
            final(self)@ == (ScanModel { est: old(self)@, stopped: false }).scan_blocks(
                block_models(old(self).blocks@),
                old(self).blocks@.len() as int,
                early_out,
            ).est,
            final(self).blocks == old(self).blocks,
    {
        let ghost start = ScanModel { est: self@, stopped: false };
        let blocks: &Vec<PreflateTokenBlock> = self.blocks;
        let ghost models = block_models(blocks@);
        let n: usize = blocks.len();
        let mut i: usize = 0;
        while i < n
            invariant
                i <= n,
                n == blocks@.len(),
                blocks == old(self).blocks,
                models == block_models(blocks@),
                self.blocks == old(self).blocks,
                old(self).blocks_wf(),
                self@.wf(),
                (ScanModel { est: self@, stopped: false }) == start.scan_blocks(
                    models,
                    i as int,
                    early_out,
                ),
            decreases n - i,
        {
            assert(blocks@[i as int]@.wf());
            assert(models[i as int] == blocks@[i as int]@);
            if self.scan_block(&blocks[i], early_out) {
                proof {
                    assert(start.scan_blocks(models, i + 1, early_out).stopped);
                    lemma_stopped_later_blocks(start, models, i + 1, n as int, early_out);
                }
                return ;
            }
            i += 1;
        }
    }
}

/// Replays the tokens of `blocks` over `plain_text` and says which zlib
/// levels can have produced them, for a window of `wbits` bits and the
/// memory level `mbits`. As in zlib, the memory level is the size of the
/// hash table less 7 bits: the levels 2 to 8 make the hash tables of 9 to
/// 15 bits that the hash chain knows. A stream that no dictionary
/// explains has a count of unfound references that is not 0.
pub fn estimate_preflate_comp_level(
    wbits: u32,
    mbits: u32,
    plain_text: &[u8],
    blocks: &Vec<PreflateTokenBlock>,
    early_out: bool,
) -> (r: PreflateCompLevelInfo)
    requires
        8 <= wbits <= 15,
        2 <= mbits <= 8,
        plain_text@.len() < u32::MAX,
        forall|i: int| 0 <= i < blocks@.len() ==> (#[trigger] blocks@[i])@.wf(),
    ensures
        r == spec_estimate(wbits, mbits, plain_text@, block_models(blocks@), early_out),
{
    let mut state = PreflateCompLevelEstimatorState::new(wbits, mbits, plain_text, blocks);
    state.check_dump(early_out);
    state.recommend();
    state.info
}

} // verus!
