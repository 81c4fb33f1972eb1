//! What holds of the estimation of the compression level over a whole
//! stream: what the scan has seen it does not forget, no level is
//! possible that zlib does not have, and a reference to the first byte of
//! the plaintext shows an encoder that is not zlib.

use vstd::prelude::*;
use crate::preflate_complevel_estimator::{
    EstimatorModel, PreflateCompLevelInfo, ScanModel, lemma_stopped_tokens, spec_estimate,
    spec_match_depth, without_level, without_short_chains,
};
use crate::preflate_token::{BlockModel, BlockType, PreflateToken};

verus! {

/// No level is among `levels` but the levels 1 to 9 of zlib.
pub open spec fn only_zlib_levels(levels: u32) -> bool {
    levels & !0x1feu32 == 0
}

/// The record `after` has kept what `before` had seen: a match to the
/// start of the plaintext stays seen, and no level has come in that zlib
/// does not have.
pub open spec fn kept(before: PreflateCompLevelInfo, after: PreflateCompLevelInfo) -> bool {
    &&& before.match_to_start ==> after.match_to_start
    &&& only_zlib_levels(before.possible_compression_levels) ==> only_zlib_levels(
        after.possible_compression_levels,
    )
}

/// Striking a level brings no level in.
pub proof fn lemma_without_level_within(levels: u32, level: u32)
    requires
        only_zlib_levels(levels),
        level < 32,
    ensures
        only_zlib_levels(without_level(levels, level)),
{
    assert(levels & !0x1feu32 == 0 && level < 32 ==> (levels & !(1u32 << level)) & !0x1feu32 == 0)
        by (bit_vector);
}

/// Striking the levels with short chains brings no level in.
pub proof fn lemma_without_short_chains_within(levels: u32, depth: u32, i: int)
    requires
        only_zlib_levels(levels),
    ensures
        only_zlib_levels(without_short_chains(levels, depth, i)),
    decreases 6 - i,
{
    if 0 <= i < 6 {
        lemma_without_level_within(levels, (4 + i) as u32);
        lemma_without_short_chains_within(without_level(levels, (4 + i) as u32), depth, i + 1);
        lemma_without_short_chains_within(levels, depth, i + 1);
    }
}

/// The check of a reference keeps what was seen, and a reference whose
/// distance is the place of the cursor is seen as a match to the start.
pub proof fn lemma_check_match_kept(est: EstimatorModel, token: PreflateToken)
    ensures
        kept(est.info, est.check_match(token).info),
        token.spec_dist() == est.slow.pos ==> est.check_match(token).info.match_to_start,
{
    let levels = est.info.possible_compression_levels;
    if only_zlib_levels(levels) {
        lemma_without_level_within(levels, 1);
        lemma_without_level_within(levels, 2);
        lemma_without_level_within(without_level(levels, 1), 2);
        let l2a = without_level(levels, 2);
        let l2b = without_level(without_level(levels, 1), 2);
        lemma_without_level_within(levels, 3);
        lemma_without_level_within(without_level(levels, 1), 3);
        lemma_without_level_within(l2a, 3);
        lemma_without_level_within(l2b, 3);
        let after = est.fast_levels_after(token);
        assert(only_zlib_levels(after));
        if est.slow.pos >= token.spec_dist() {
            let depth = spec_match_depth(
                est.slow,
                est.slow.chain.head_of(est.slow.cur_hash()),
                token,
                est.wsize,
            );
            lemma_without_short_chains_within(after, depth, 0);
        }
    }
}

/// A token keeps what the scan had seen before it.
pub proof fn lemma_scan_token_kept(s: ScanModel, token: PreflateToken, early_out: bool)
    ensures
        kept(s.est.info, s.scan_token(token, early_out).est.info),
{
    lemma_check_match_kept(s.est, token);
}

/// Later tokens keep what the scan had seen after the first `k`.
pub proof fn lemma_scan_tokens_kept(
    s: ScanModel,
    tokens: Seq<PreflateToken>,
    k: int,
    n: int,
    early_out: bool,
)
    requires
        0 <= k <= n,
    ensures
        kept(
            s.scan_tokens(tokens, k, early_out).est.info,
            s.scan_tokens(tokens, n, early_out).est.info,
        ),
    decreases n,
{
    if k < n {
        lemma_scan_tokens_kept(s, tokens, k, n - 1, early_out);
        lemma_scan_token_kept(s.scan_tokens(tokens, n - 1, early_out), tokens[n - 1], early_out);
    }
}

/// A block keeps what the scan had seen before it.
pub proof fn lemma_scan_block_kept(s: ScanModel, block: BlockModel, early_out: bool)
    ensures
        kept(s.est.info, s.scan_block(block, early_out).est.info),
{
    if !s.stopped && block.block_type != BlockType::Stored {
        lemma_scan_tokens_kept(s, block.tokens, 0, block.tokens.len() as int, early_out);
    }
}

/// Later blocks keep what the scan had seen after the first `k`.
pub proof fn lemma_scan_blocks_kept(
    s: ScanModel,
    blocks: Seq<BlockModel>,
    k: int,
    n: int,
    early_out: bool,
)
    requires
        0 <= k <= n,
    ensures
        kept(
            s.scan_blocks(blocks, k, early_out).est.info,
            s.scan_blocks(blocks, n, early_out).est.info,
        ),
    decreases n,
{
    if k < n {
        lemma_scan_blocks_kept(s, blocks, k, n - 1, early_out);
        lemma_scan_block_kept(s.scan_blocks(blocks, n - 1, early_out), blocks[n - 1], early_out);
    }
}

/// The levels that an estimation leaves possible are levels of zlib:
/// none but the levels 1 to 9 is among them.
pub proof fn lemma_estimate_levels(
    wbits: u32,
    mbits: u32,
    data: Seq<u8>,
    blocks: Seq<BlockModel>,
    early_out: bool,
)
    ensures
        only_zlib_levels(
            spec_estimate(wbits, mbits, data, blocks, early_out).possible_compression_levels,
        ),
{
    let start = ScanModel { est: EstimatorModel::start(wbits, mbits, data), stopped: false };
    assert(only_zlib_levels(0x1feu32)) by (bit_vector);
    lemma_scan_blocks_kept(start, blocks, 0, blocks.len() as int, early_out);
}

/// A reference to the first byte of the plaintext shows an encoder that
/// is not zlib. Where the scan reaches token `t` of block `b`, a
/// reference that the plaintext has room for and whose distance is the
/// place at which it stands, the estimation says that a match to the
/// start was seen and that the stream is not one of zlib.
pub proof fn lemma_match_to_start_is_seen(
    wbits: u32,
    mbits: u32,
    data: Seq<u8>,
    blocks: Seq<BlockModel>,
    early_out: bool,
    b: int,
    t: int,
)
    requires
        0 <= b < blocks.len(),
        blocks[b].block_type != BlockType::Stored,
        0 <= t < blocks[b].tokens.len(),
        ({
            let start = ScanModel {
                est: EstimatorModel::start(wbits, mbits, data),
                stopped: false,
            };
            let before = start.scan_blocks(blocks, b, early_out).scan_tokens(
                blocks[b].tokens,
                t,
                early_out,
            );
            let token = blocks[b].tokens[t];
            &&& !before.stopped
            &&& token is Reference
            &&& token.wf()
            &&& token.spec_len() <= before.est.slow.remaining()
            &&& token.spec_dist() == before.est.slow.pos
        }),
    ensures
        spec_estimate(wbits, mbits, data, blocks, early_out).match_to_start,
        !spec_estimate(wbits, mbits, data, blocks, early_out).zlib_compatible,
{
    let start = ScanModel { est: EstimatorModel::start(wbits, mbits, data), stopped: false };
    let at_block = start.scan_blocks(blocks, b, early_out);
    let tokens = blocks[b].tokens;
    let n = tokens.len() as int;
    let before = at_block.scan_tokens(tokens, t, early_out);
    if at_block.stopped {
        lemma_stopped_tokens(at_block, tokens, t, early_out);
    }
    lemma_check_match_kept(before.est, tokens[t]);
    let after = at_block.scan_tokens(tokens, t + 1, early_out);
    assert(after == before.scan_token(tokens[t], early_out));
    assert(after.est.info.match_to_start);
    lemma_scan_tokens_kept(at_block, tokens, t + 1, n, early_out);
    assert(start.scan_blocks(blocks, b + 1, early_out) == at_block.scan_block(
        blocks[b],
        early_out,
    ));
    lemma_scan_blocks_kept(start, blocks, b + 1, blocks.len() as int, early_out);
}

} // verus!
