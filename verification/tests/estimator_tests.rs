use preflate_rs::preflate_complevel_estimator::{
    estimate_preflate_comp_level, PreflateCompLevelEstimatorState, PreflateCompLevelInfo,
};
use preflate_rs::preflate_hash_chain::PreflateHashChainExt;
use preflate_rs::preflate_parse_config::{
    fast_preflate_parser_settings, slow_preflate_parser_settings, PreflateParserConfig,
};
use preflate_rs::preflate_token::{
    BlockType, PreflateToken, PreflateTokenBlock, PreflateTokenReference,
};

fn reference(len: u32, dist: u32) -> PreflateToken {
    PreflateToken::Reference(PreflateTokenReference::new(len, dist, false))
}

fn block_of(tokens: &[PreflateToken]) -> PreflateTokenBlock {
    let mut block = PreflateTokenBlock::new(BlockType::DynamicHuff);
    block.tokens = tokens.to_vec();
    block
}

fn literals(n: usize) -> Vec<PreflateToken> {
    vec![PreflateToken::Literal; n]
}

#[test]
fn zlib_stream_is_recognised() {
    let plaintext = b"abcabcabc";
    let mut tokens = literals(4);
    tokens.push(reference(5, 3));
    let blocks = vec![block_of(&tokens)];
    let info = estimate_preflate_comp_level(15, 8, plaintext, &blocks, false);
    assert_eq!(
        info,
        PreflateCompLevelInfo {
            possible_compression_levels: 0x1fe,
            recommended_compression_level: 1,
            zlib_compatible: true,
            reference_count: 1,
            unfound_references: 0,
            max_chain_depth: 0,
            longest_len_3_dist: 0,
            longest_dist_at_hop_0: 3,
            longest_dist_at_hop_1_plus: 0,
            match_to_start: false,
            very_far_matches: false,
            far_len_3_matches: false,
        }
    );
}

#[test]
fn match_to_start_is_not_zlib_but_levels_stay() {
    let plaintext = b"abcabcabc";
    let mut tokens = literals(3);
    tokens.push(reference(6, 3));
    let blocks = vec![block_of(&tokens)];
    let info = estimate_preflate_comp_level(15, 8, plaintext, &blocks, false);
    assert!(info.match_to_start);
    assert!(!info.zlib_compatible);
    assert_eq!(info.possible_compression_levels, 0x1fe);
    assert_eq!(info.unfound_references, 0);
    assert_eq!(info.reference_count, 1);
    assert_eq!(info.longest_dist_at_hop_0, 3);
    // The first level whose chains are long enough.
    assert_eq!(info.recommended_compression_level, 4);
}

#[test]
fn reference_off_every_chain_is_unfound() {
    let plaintext = b"abababxyz";
    let mut tokens = literals(6);
    tokens.push(reference(3, 4));
    let blocks = vec![block_of(&tokens)];
    let info = estimate_preflate_comp_level(15, 8, plaintext, &blocks, false);
    assert_eq!(info.unfound_references, 1);
    assert_eq!(info.reference_count, 1);
    assert_eq!(info.possible_compression_levels, 0);
    assert!(!info.zlib_compatible);
    assert_eq!(info.recommended_compression_level, 9);
    assert_eq!(info.longest_len_3_dist, 4);
    assert_eq!(info.longest_dist_at_hop_1_plus, 4);
    assert_eq!(info.longest_dist_at_hop_0, 0);
    assert_eq!(info.max_chain_depth, 0);
}

#[test]
fn deep_chain_excludes_the_shallow_levels() {
    // Twenty times "abc" with a byte between that differs, then "abc" once more.
    let mut plaintext = vec![b'Z'];
    for i in 0..20u8 {
        plaintext.extend_from_slice(b"abc");
        plaintext.push(b'A' + i);
    }
    plaintext.extend_from_slice(b"abc");
    let mut tokens = literals(5);
    // Each "abc" refers to the one before, but for the last, which refers to the first but one.
    for _ in 1..20 {
        tokens.push(reference(3, 4));
        tokens.push(PreflateToken::Literal);
    }
    tokens.push(reference(3, 76));
    let blocks = vec![block_of(&tokens)];
    let info = estimate_preflate_comp_level(15, 8, &plaintext, &blocks, false);
    assert_eq!(info.unfound_references, 0);
    assert_eq!(info.reference_count, 20);
    // The target is the second of twenty entries on the chain: 18 hops.
    assert_eq!(info.max_chain_depth, 18);
    assert_eq!(info.longest_dist_at_hop_0, 4);
    assert_eq!(info.longest_dist_at_hop_1_plus, 76);
    assert_eq!(info.longest_len_3_dist, 76);
    // The levels 1, 2 and 4 follow their chains for 4, 8 and 16 entries.
    assert_eq!(info.possible_compression_levels, 0x1fe & !0b10110);
    assert!(info.zlib_compatible);
    assert_eq!(info.recommended_compression_level, 3);
}

#[test]
fn early_out_stops_when_one_level_is_left() {
    let plaintext = b"abababxyzxyz";
    let mut tokens = literals(6);
    tokens.push(reference(3, 4));
    tokens.push(reference(3, 3));
    let blocks = vec![block_of(&tokens)];
    let all = estimate_preflate_comp_level(15, 8, plaintext, &blocks, false);
    assert_eq!(all.reference_count, 2);
    let early = estimate_preflate_comp_level(15, 8, plaintext, &blocks, true);
    assert_eq!(early.reference_count, 1);
    assert_eq!(early.unfound_references, 1);
}

#[test]
fn token_beyond_the_plaintext_is_unfound() {
    let plaintext = b"abc";
    let blocks = vec![block_of(&literals(4))];
    let info = estimate_preflate_comp_level(15, 8, plaintext, &blocks, false);
    assert_eq!(info.unfound_references, 1);
    assert_eq!(info.reference_count, 0);

    let mut stored = PreflateTokenBlock::new(BlockType::Stored);
    stored.uncompressed_len = 4;
    let info = estimate_preflate_comp_level(15, 8, plaintext, &vec![stored], false);
    assert_eq!(info.unfound_references, 1);
}

#[test]
fn stored_block_enters_its_bytes() {
    let plaintext = b"abcdabcd";
    let mut stored = PreflateTokenBlock::new(BlockType::Stored);
    stored.uncompressed_len = 4;
    let blocks = vec![stored, block_of(&[reference(4, 4)])];
    let info = estimate_preflate_comp_level(15, 8, plaintext, &blocks, false);
    assert_eq!(info.unfound_references, 0);
    assert_eq!(info.reference_count, 1);
    assert!(info.match_to_start);
    assert_eq!(info.longest_dist_at_hop_0, 4);
}

#[test]
fn match_depth_counts_the_hops() {
    let plaintext = b"abcXabcYabcZabc";
    let mut chain = PreflateHashChainExt::new(plaintext, 15);
    chain.update_hash(12);
    let head = chain.get_head(chain.cur_hash());
    assert_eq!(head, 9);
    let depth = |dist: u32, window: u32| {
        PreflateCompLevelEstimatorState::match_depth(head, &reference(3, dist), &chain, window)
    };
    assert_eq!(depth(4, 32768), 0);
    assert_eq!(depth(8, 32768), 1);
    assert_eq!(depth(12, 32768), 2);
    // Out of the window, or before the plaintext.
    assert_eq!(depth(12, 8), 0xffff);
    assert_eq!(depth(13, 32768), 0xffff);
    // No reference at all.
    assert_eq!(
        PreflateCompLevelEstimatorState::match_depth(
            head,
            &PreflateToken::Literal,
            &chain,
            32768
        ),
        0xffff
    );
    let config = fast_preflate_parser_settings(0);
    let hash = chain.cur_hash();
    assert!(PreflateCompLevelEstimatorState::check_match_single_fast_hash(
        &reference(3, 12),
        &chain,
        &config,
        hash,
        32768
    ));
    let shallow = PreflateParserConfig { max_chain: 1, ..config };
    assert!(!PreflateCompLevelEstimatorState::check_match_single_fast_hash(
        &reference(3, 12),
        &chain,
        &shallow,
        hash,
        32768
    ));
}

#[test]
fn fast_levels_skip_long_matches() {
    let plaintext = b"abcdefgabcdefgabcdefg";
    let blocks: Vec<PreflateTokenBlock> = Vec::new();
    let mut state = PreflateCompLevelEstimatorState::new(15, 8, plaintext, &blocks);
    assert_eq!(state.window_size(), 32768);
    state.update_hash(7);
    // A match of 7 bytes is longer than what the fast levels enter.
    state.update_or_skip_hash(7);
    assert_eq!(state.slow_hash.input().pos(), 14);
    assert_eq!(state.fast_l1_hash.input().pos(), 14);
    let hash = state.slow_hash.cur_hash();
    assert_eq!(state.slow_hash.get_head(hash), 8);
    assert_eq!(state.fast_l1_hash.get_head(hash), 8);
    let bcd = state.slow_hash.chain.head[0];
    assert_eq!(bcd, 0);
    // The second position of the match is in the dictionary of the slow levels only.
    let mut slow_entries = 0;
    let mut fast_entries = 0;
    for h in 0..0x8000u32 {
        if state.slow_hash.get_head(h) != 0 {
            slow_entries += 1;
        }
        if state.fast_l3_hash.get_head(h) != 0 {
            fast_entries += 1;
        }
    }
    assert_eq!(slow_entries, 7);
    assert_eq!(fast_entries, 7);
    assert_eq!(state.slow_hash.get_node_depth(9), 2);
    assert_eq!(state.fast_l3_hash.get_node_depth(9), 0xffff_ffff);
}

#[test]
fn parser_settings_of_the_levels() {
    assert_eq!(
        fast_preflate_parser_settings(0),
        PreflateParserConfig { good_length: 4, max_lazy: 4, nice_length: 8, max_chain: 4 }
    );
    assert_eq!(fast_preflate_parser_settings(2).max_chain, 32);
    assert_eq!(
        slow_preflate_parser_settings(2),
        PreflateParserConfig { good_length: 8, max_lazy: 16, nice_length: 128, max_chain: 128 }
    );
    assert_eq!(slow_preflate_parser_settings(5).max_chain, 4096);
    assert_eq!(slow_preflate_parser_settings(5).max_lazy, 258);
}

#[test]
fn recommendation_follows_the_record() {
    let plaintext = b"";
    let blocks: Vec<PreflateTokenBlock> = Vec::new();
    let mut state = PreflateCompLevelEstimatorState::new(15, 8, plaintext, &blocks);
    state.info.possible_compression_levels = 0b1_0010_0000;
    state.recommend();
    assert!(state.info.zlib_compatible);
    assert_eq!(state.info.recommended_compression_level, 5);

    let mut state = PreflateCompLevelEstimatorState::new(15, 8, plaintext, &blocks);
    state.info.longest_len_3_dist = 4097;
    state.info.possible_compression_levels = 0b1_1111_0000;
    state.recommend();
    assert!(state.info.far_len_3_matches);
    assert!(!state.info.zlib_compatible);
    assert_eq!(state.info.recommended_compression_level, 4);

    let mut state = PreflateCompLevelEstimatorState::new(15, 8, plaintext, &blocks);
    state.info.longest_dist_at_hop_0 = 32768 - 262 + 1;
    state.info.longest_dist_at_hop_1_plus = 100;
    state.info.max_chain_depth = 200;
    state.recommend();
    assert!(state.info.very_far_matches);
    assert!(!state.info.zlib_compatible);
    assert_eq!(state.info.recommended_compression_level, 7);

    // A distance beyond zlib's reach further down a chain counts as well.
    let mut state = PreflateCompLevelEstimatorState::new(15, 8, plaintext, &blocks);
    state.info.longest_dist_at_hop_0 = 0;
    state.info.longest_dist_at_hop_1_plus = 32700;
    state.recommend();
    assert!(state.info.very_far_matches);
    assert!(!state.info.zlib_compatible);
    assert_eq!(state.info.recommended_compression_level, 4);

    // At the bound itself zlib still reaches.
    let mut state = PreflateCompLevelEstimatorState::new(15, 8, plaintext, &blocks);
    state.info.longest_dist_at_hop_0 = 32768 - 262;
    state.info.longest_dist_at_hop_1_plus = 32768 - 262;
    state.recommend();
    assert!(!state.info.very_far_matches);
    assert!(state.info.zlib_compatible);

    let mut state = PreflateCompLevelEstimatorState::new(15, 8, plaintext, &blocks);
    state.info.longest_dist_at_hop_0 = 32768;
    state.info.longest_dist_at_hop_1_plus = 32768;
    state.recommend();
    assert!(state.info.very_far_matches);

    let mut state = PreflateCompLevelEstimatorState::new(15, 8, plaintext, &blocks);
    state.info.max_chain_depth = 5000;
    state.info.match_to_start = true;
    state.recommend();
    assert_eq!(state.info.recommended_compression_level, 9);
    assert_eq!(PreflateCompLevelInfo::default().possible_compression_levels, 0);
}

#[test]
fn possible_levels_are_levels_of_zlib() {
    let plaintext = b"abcabcabcabcabcabcabcabc-abcabcabc";
    let runs: Vec<Vec<PreflateToken>> = vec![
        literals(34),
        vec![
            PreflateToken::Literal,
            PreflateToken::Literal,
            PreflateToken::Literal,
            reference(21, 3),
            PreflateToken::Literal,
            reference(9, 25),
        ],
        vec![PreflateToken::Literal, reference(30, 1)],
        vec![reference(3, 1)],
        vec![],
    ];
    for tokens in runs {
        for early_out in [false, true] {
            for mbits in [2u32, 5, 8] {
                let blocks = vec![block_of(&tokens)];
                let info = estimate_preflate_comp_level(15, mbits, plaintext, &blocks, early_out);
                assert_eq!(info.possible_compression_levels & !0x1fe, 0);
            }
        }
    }
}
