use preflate_rs::predictor_state::{MatchResult, PredictorState};
use preflate_rs::preflate_error::PreflateError;
use preflate_rs::preflate_parameter_estimator::PreflateParameters;
use preflate_rs::preflate_token::{
    BlockType, PreflateToken, PreflateTokenBlock, PreflateTokenReference,
};
use preflate_rs::statistical_codec::{
    CodecAction, CodecCorrection, CodecMisprediction, DefaultOnlyDecoder, PredictionEncoder,
    VerifyPredictionDecoder, VerifyPredictionEncoder,
};
use preflate_rs::token_predictor::TokenPredictor;

/// The options of a zlib encoder at one of the levels 1, 6 or 9.
fn zlib_parameters(level: u32, matches_to_start: bool) -> PreflateParameters {
    let (good_length, max_lazy, nice_length, max_chain, fast) = match level {
        1 => (4, 4, 8, 4, true),
        6 => (8, 16, 128, 128, false),
        9 => (32, 258, 258, 4096, false),
        _ => panic!("no options for level {}", level),
    };
    PreflateParameters {
        window_bits: 15,
        hash_shift: 5,
        hash_mask: 0x7fff,
        max_token_count: 16383,
        zlib_compatible: !matches_to_start,
        matches_to_start_detected: matches_to_start,
        very_far_matches_detected: false,
        is_fast_compressor: fast,
        good_length,
        nice_length,
        max_lazy,
        max_chain,
        max_dist_3_matches: 4096,
        log2_of_max_chain_depth_m1: 0,
    }
}

fn reference(len: u32, dist: u32) -> PreflateToken {
    PreflateToken::Reference(PreflateTokenReference::new(len, dist, false))
}

fn block_of(block_type: BlockType, tokens: &[PreflateToken]) -> PreflateTokenBlock {
    let mut block = PreflateTokenBlock::new(block_type);
    block.tokens = tokens.to_vec();
    block
}

/// Describes the blocks, rebuilds them from the description and checks
/// that they come back as they were. Returns the events.
fn roundtrip(
    plaintext: &[u8],
    params: &PreflateParameters,
    blocks: &[PreflateTokenBlock],
) -> Vec<CodecAction> {
    let mut encoder = VerifyPredictionEncoder::default();
    let mut predictor = TokenPredictor::new(plaintext, params, 0);
    for (i, block) in blocks.iter().enumerate() {
        predictor
            .predict_block(block, &mut encoder, i + 1 == blocks.len())
            .unwrap();
    }
    assert!(predictor.input_eof());

    let mut decoder = VerifyPredictionDecoder::new(encoder.actions());
    let mut rebuilder = TokenPredictor::new(plaintext, params, 0);
    for block in blocks.iter() {
        let rebuilt = rebuilder.recreate_block(&mut decoder).unwrap();
        assert_eq!(rebuilt.block_type, block.block_type);
        assert_eq!(rebuilt.tokens, block.tokens);
        assert_eq!(rebuilt.uncompressed_len, block.uncompressed_len);
        assert_eq!(rebuilt.padding_bits, block.padding_bits);
    }
    assert!(rebuilder.input_eof());
    // As many events are taken as were given.
    assert!(decoder.finished_in_step());
    assert_eq!(rebuilder.checksum(), predictor.checksum());
    encoder.actions()
}

#[test]
fn run_of_a_is_a_literal_and_a_reference() {
    let plaintext = b"aaaaaaaa";
    let params = zlib_parameters(6, true);
    let mut predictor = TokenPredictor::new(plaintext, &params, 0);
    assert_eq!(predictor.predict_token(), PreflateToken::Literal);
    predictor.commit_token(&PreflateToken::Literal);
    assert_eq!(predictor.predict_token(), reference(7, 1));
    predictor.commit_token(&reference(7, 1));
    assert!(predictor.input_eof());

    let block = block_of(
        BlockType::DynamicHuff,
        &[PreflateToken::Literal, reference(7, 1)],
    );
    let events = roundtrip(plaintext, &params, &[block]);
    assert_eq!(
        events,
        vec![
            CodecAction::Correction(CodecCorrection::BlockTypeCorrection, 0),
            CodecAction::Correction(CodecCorrection::TokenCount, 0),
            CodecAction::Misprediction(CodecMisprediction::LiteralPredictionWrong, false),
            CodecAction::Misprediction(CodecMisprediction::ReferencePredictionWrong, false),
            CodecAction::Correction(CodecCorrection::LenCorrection, 0),
            CodecAction::Correction(CodecCorrection::DistOnlyCorrection, 0),
        ]
    );
}

#[test]
fn zlib_cannot_refer_to_the_first_byte() {
    // zlib keeps no entry for position 0, so the second byte is a literal too.
    let plaintext = b"aaaaaaaa";
    let params = zlib_parameters(6, false);
    let mut predictor = TokenPredictor::new(plaintext, &params, 0);
    assert_eq!(predictor.predict_token(), PreflateToken::Literal);
    predictor.commit_token(&PreflateToken::Literal);
    assert_eq!(predictor.predict_token(), PreflateToken::Literal);
    predictor.commit_token(&PreflateToken::Literal);
    assert_eq!(predictor.predict_token(), reference(6, 1));
}

#[test]
fn abc_roundtrip_at_three_levels() {
    let plaintext = b"abcabcabc";
    for level in [1, 6, 9] {
        let params = zlib_parameters(level, false);
        let block = block_of(
            BlockType::StaticHuff,
            &[
                PreflateToken::Literal,
                PreflateToken::Literal,
                PreflateToken::Literal,
                PreflateToken::Literal,
                reference(5, 3),
            ],
        );
        let events = roundtrip(plaintext, &params, &[block]);
        // Only the block type is not as predicted.
        assert_eq!(
            events[0],
            CodecAction::Correction(CodecCorrection::BlockTypeCorrection, 1)
        );
        assert!(events[1..].iter().all(|e| matches!(
            e,
            CodecAction::Correction(_, 0) | CodecAction::Misprediction(_, false)
        )));

        let params = zlib_parameters(level, true);
        let block = block_of(
            BlockType::DynamicHuff,
            &[
                PreflateToken::Literal,
                PreflateToken::Literal,
                PreflateToken::Literal,
                reference(6, 3),
            ],
        );
        roundtrip(plaintext, &params, &[block]);
    }
}

#[test]
fn match_to_start_needs_no_zlib_compatibility() {
    // A reference to the first byte is out of reach of zlib's search.
    let plaintext = b"abcabcabc";
    let params = zlib_parameters(6, false);
    let block = block_of(
        BlockType::DynamicHuff,
        &[
            PreflateToken::Literal,
            PreflateToken::Literal,
            PreflateToken::Literal,
            reference(6, 3),
        ],
    );
    let mut encoder = VerifyPredictionEncoder::default();
    let mut predictor = TokenPredictor::new(plaintext, &params, 0);
    assert_eq!(
        predictor.predict_block(&block, &mut encoder, true),
        Err(PreflateError::NoMatchFound)
    );
}

#[test]
fn long_match_keeps_its_length_code() {
    let plaintext = vec![b'x'; 300];
    let params = zlib_parameters(6, false);
    for irregular in [false, true] {
        let block = block_of(
            BlockType::DynamicHuff,
            &[
                PreflateToken::Literal,
                PreflateToken::Literal,
                PreflateToken::Reference(PreflateTokenReference::new(258, 1, irregular)),
                reference(40, 1),
            ],
        );
        let events = roundtrip(&plaintext, &params, &[block]);
        let flags: Vec<&CodecAction> = events
            .iter()
            .filter(|e| {
                matches!(
                    e,
                    CodecAction::Misprediction(CodecMisprediction::IrregularLen258, _)
                )
            })
            .collect();
        assert_eq!(
            flags,
            vec![&CodecAction::Misprediction(
                CodecMisprediction::IrregularLen258,
                irregular
            )]
        );
    }
}

#[test]
fn stored_block_keeps_its_padding() {
    let mut plaintext = Vec::new();
    let mut v: u32 = 12345;
    for _ in 0..500 {
        v = v.wrapping_mul(1103515245).wrapping_add(12345);
        plaintext.push((v >> 16) as u8);
    }
    let params = zlib_parameters(6, false);
    let mut block = PreflateTokenBlock::new(BlockType::Stored);
    block.uncompressed_len = 500;
    block.padding_bits = 3;
    let events = roundtrip(&plaintext, &params, &[block]);
    assert_eq!(
        events,
        vec![
            CodecAction::Correction(CodecCorrection::BlockTypeCorrection, 3),
            CodecAction::Value(500, 16),
            CodecAction::Correction(CodecCorrection::NonZeroPadding, 3),
        ]
    );
}

#[test]
fn stored_block_padding_from_zero_to_seven() {
    let plaintext = b"0123456789";
    let params = zlib_parameters(6, false);
    for padding in 0..8u8 {
        let mut block = PreflateTokenBlock::new(BlockType::Stored);
        block.uncompressed_len = 10;
        block.padding_bits = padding;
        roundtrip(plaintext, &params, &[block]);
    }
}

#[test]
fn empty_and_single_token_blocks() {
    let plaintext = b"q";
    let params = zlib_parameters(6, false);
    let empty = block_of(BlockType::StaticHuff, &[]);
    let single = block_of(BlockType::DynamicHuff, &[PreflateToken::Literal]);
    let events = roundtrip(plaintext, &params, &[empty, single]);
    assert_eq!(
        events,
        vec![
            CodecAction::Correction(CodecCorrection::BlockTypeCorrection, 1),
            // No token, where a full block is expected.
            CodecAction::Correction(CodecCorrection::TokenCount, 1),
            CodecAction::Correction(CodecCorrection::BlockTypeCorrection, 0),
            CodecAction::Correction(CodecCorrection::TokenCount, 0),
            CodecAction::Misprediction(CodecMisprediction::LiteralPredictionWrong, false),
        ]
    );
}

#[test]
fn block_with_exactly_the_expected_token_count() {
    let plaintext = b"abcdefgh";
    let mut params = zlib_parameters(6, false);
    params.max_token_count = 4;
    let full = block_of(BlockType::DynamicHuff, &[PreflateToken::Literal; 4]);
    let events = roundtrip(plaintext, &params, &[full.clone(), full]);
    let counts: Vec<&CodecAction> = events
        .iter()
        .filter(|e| matches!(e, CodecAction::Correction(CodecCorrection::TokenCount, _)))
        .collect();
    assert_eq!(
        counts,
        vec![
            &CodecAction::Correction(CodecCorrection::TokenCount, 0),
            &CodecAction::Correction(CodecCorrection::TokenCount, 0),
        ]
    );

    // A block that is longer or shorter than expected sends its count.
    let long = block_of(BlockType::DynamicHuff, &[PreflateToken::Literal; 5]);
    let short = block_of(BlockType::DynamicHuff, &[PreflateToken::Literal; 3]);
    let events = roundtrip(plaintext, &params, &[long, short]);
    let counts: Vec<&CodecAction> = events
        .iter()
        .filter(|e| matches!(e, CodecAction::Correction(CodecCorrection::TokenCount, _)))
        .collect();
    assert_eq!(
        counts,
        vec![
            &CodecAction::Correction(CodecCorrection::TokenCount, 6),
            &CodecAction::Correction(CodecCorrection::TokenCount, 0),
        ]
    );
}

#[test]
fn corrections_of_length_and_distance() {
    //                0123456789012345678901234
    let plaintext = b"abcdXabcdeYabcdZabcdeabcd";
    let params = zlib_parameters(9, false);
    let mut tokens = vec![PreflateToken::Literal; 16];
    // The longest match is (5, 11); the encoder took a shorter and nearer one.
    tokens.push(reference(4, 5));
    tokens.push(PreflateToken::Literal);
    tokens.push(reference(4, 5));
    let block = block_of(BlockType::DynamicHuff, &tokens);
    let events = roundtrip(plaintext, &params, &[block]);
    let at = events
        .iter()
        .position(|e| matches!(e, CodecAction::Correction(CodecCorrection::LenCorrection, _)))
        .unwrap();
    // One byte less than predicted, and the first chain entry that holds four bytes.
    assert_eq!(
        events[at],
        CodecAction::Correction(CodecCorrection::LenCorrection, 1)
    );
    assert_eq!(
        events[at + 1],
        CodecAction::Correction(CodecCorrection::DistAfterLenCorrection, 1)
    );
}

#[test]
fn default_events_rebuild_the_predicted_block() {
    let plaintext = b"abcabcabcabcabcabc";
    let params = zlib_parameters(6, false);
    let mut rebuilder = TokenPredictor::new(plaintext, &params, 0);
    let mut decoder = DefaultOnlyDecoder::new();
    let block = rebuilder.recreate_block(&mut decoder).unwrap();
    assert_eq!(block.block_type, BlockType::DynamicHuff);
    assert_eq!(
        block.tokens,
        vec![
            PreflateToken::Literal,
            PreflateToken::Literal,
            PreflateToken::Literal,
            PreflateToken::Literal,
            reference(14, 3),
        ]
    );
    assert!(rebuilder.input_eof());
    // The literals and the end of the block are counted, and the reference.
    assert_eq!(block.freq.literal_codes[b'a' as usize], 2);
    assert_eq!(block.freq.literal_codes[b'b' as usize], 1);
    assert_eq!(block.freq.literal_codes[b'c' as usize], 1);
    assert_eq!(block.freq.literal_codes[256], 1);
    assert_eq!(block.freq.literal_codes[257 + 9], 1);
    assert_eq!(block.freq.distance_codes[2], 1);

    // Described again, the block needs no correction.
    let mut encoder = VerifyPredictionEncoder::default();
    let mut predictor = TokenPredictor::new(plaintext, &params, 0);
    predictor.predict_block(&block, &mut encoder, true).unwrap();
    assert_eq!(encoder.count_nondefault_actions(), 0);
    assert_eq!(encoder.actions().len(), 2 + 4 + 3);
}

#[test]
fn token_beyond_the_plaintext_is_an_error() {
    let plaintext = b"abc";
    let params = zlib_parameters(6, false);
    let block = block_of(BlockType::DynamicHuff, &[PreflateToken::Literal; 4]);
    let mut encoder = VerifyPredictionEncoder::default();
    let mut predictor = TokenPredictor::new(plaintext, &params, 0);
    assert_eq!(
        predictor.predict_block(&block, &mut encoder, true),
        Err(PreflateError::PlaintextTooShort)
    );

    let block = block_of(
        BlockType::DynamicHuff,
        &[PreflateToken::Literal, reference(3, 1)],
    );
    let mut predictor = TokenPredictor::new(plaintext, &params, 0);
    assert_eq!(
        predictor.predict_block(&block, &mut encoder, true),
        Err(PreflateError::PlaintextTooShort)
    );

    let mut stored = PreflateTokenBlock::new(BlockType::Stored);
    stored.uncompressed_len = 4;
    let mut predictor = TokenPredictor::new(plaintext, &params, 0);
    assert_eq!(
        predictor.predict_block(&stored, &mut encoder, true),
        Err(PreflateError::PlaintextTooShort)
    );
}

#[test]
fn invalid_block_type_is_an_error() {
    let plaintext = b"abc";
    let params = zlib_parameters(6, false);
    let mut encoder = VerifyPredictionEncoder::default();
    // One more than the code of a dynamic block.
    encoder.encode_correction(CodecCorrection::BlockTypeCorrection, 2);
    let mut decoder = VerifyPredictionDecoder::new(encoder.actions());
    let mut rebuilder = TokenPredictor::new(plaintext, &params, 0);
    assert_eq!(
        rebuilder.recreate_block(&mut decoder),
        Err(PreflateError::InvalidBlockType)
    );
}

#[test]
fn invalid_block_type_takes_one_event_and_no_plaintext() {
    let plaintext = b"xabcabcabcabc";
    let params = zlib_parameters(6, false);
    let block = block_of(
        BlockType::DynamicHuff,
        &[
            PreflateToken::Literal,
            PreflateToken::Literal,
            PreflateToken::Literal,
            PreflateToken::Literal,
            reference(9, 3),
        ],
    );
    let mut events = roundtrip(plaintext, &params, &[block.clone()]);
    // A block type that does not exist stands before the events of the block.
    for correction in [2u32, 4, 6, 100] {
        events.insert(0, CodecAction::Correction(CodecCorrection::BlockTypeCorrection, correction));
        let mut decoder = VerifyPredictionDecoder::new(events.clone());
        let mut rebuilder = TokenPredictor::new(plaintext, &params, 0);
        let untouched = TokenPredictor::new(plaintext, &params, 0);
        assert_eq!(
            rebuilder.recreate_block(&mut decoder),
            Err(PreflateError::InvalidBlockType)
        );
        assert_eq!(decoder.index, 1);
        assert_eq!(rebuilder.state.current_input_pos(), 0);
        assert_eq!(rebuilder.state.available_input_size(), 13);
        assert_eq!(rebuilder.current_token_count, 0);
        assert_eq!(rebuilder.pending_reference, None);
        assert_eq!(rebuilder.checksum().hash(), untouched.checksum().hash());
        // The block after it is rebuilt as if nothing had stood before it.
        let rebuilt = rebuilder.recreate_block(&mut decoder).unwrap();
        assert_eq!(rebuilt.block_type, block.block_type);
        assert_eq!(rebuilt.tokens, block.tokens);
        assert!(decoder.finished_in_step());
        assert!(rebuilder.input_eof());
        events.remove(0);
    }
}

#[test]
fn stored_block_errors_on_rebuild() {
    let plaintext = b"abc";
    let params = zlib_parameters(6, false);
    let mut encoder = VerifyPredictionEncoder::default();
    encoder.encode_correction(CodecCorrection::BlockTypeCorrection, 3);
    encoder.encode_value(3, 16);
    encoder.encode_correction(CodecCorrection::NonZeroPadding, 8);
    let mut decoder = VerifyPredictionDecoder::new(encoder.actions());
    let mut rebuilder = TokenPredictor::new(plaintext, &params, 0);
    assert_eq!(
        rebuilder.recreate_block(&mut decoder),
        Err(PreflateError::InvalidHeader)
    );

    let mut encoder = VerifyPredictionEncoder::default();
    encoder.encode_correction(CodecCorrection::BlockTypeCorrection, 3);
    encoder.encode_value(4, 16);
    encoder.encode_correction(CodecCorrection::NonZeroPadding, 0);
    let mut decoder = VerifyPredictionDecoder::new(encoder.actions());
    let mut rebuilder = TokenPredictor::new(plaintext, &params, 0);
    assert_eq!(
        rebuilder.recreate_block(&mut decoder),
        Err(PreflateError::PlaintextTooShort)
    );
}

#[test]
fn reference_without_a_match_is_an_error_on_rebuild() {
    let plaintext = b"abcdefgh";
    let params = zlib_parameters(6, false);
    let mut encoder = VerifyPredictionEncoder::default();
    encoder.encode_correction(CodecCorrection::BlockTypeCorrection, 0);
    encoder.encode_correction(CodecCorrection::TokenCount, 0);
    // A reference at the first byte.
    encoder.encode_misprediction(CodecMisprediction::LiteralPredictionWrong, true);
    let mut decoder = VerifyPredictionDecoder::new(encoder.actions());
    let mut rebuilder = TokenPredictor::new(plaintext, &params, 0);
    assert_eq!(
        rebuilder.recreate_block(&mut decoder),
        Err(PreflateError::NoSpaceForReference)
    );

    let mut encoder = VerifyPredictionEncoder::default();
    encoder.encode_correction(CodecCorrection::BlockTypeCorrection, 0);
    encoder.encode_correction(CodecCorrection::TokenCount, 0);
    encoder.encode_misprediction(CodecMisprediction::LiteralPredictionWrong, false);
    encoder.encode_misprediction(CodecMisprediction::LiteralPredictionWrong, false);
    // A reference where nothing repeats.
    encoder.encode_misprediction(CodecMisprediction::LiteralPredictionWrong, true);
    let mut decoder = VerifyPredictionDecoder::new(encoder.actions());
    let mut rebuilder = TokenPredictor::new(plaintext, &params, 0);
    assert_eq!(
        rebuilder.recreate_block(&mut decoder),
        Err(PreflateError::NoMatchFound)
    );
}

#[test]
fn hops_out_of_range_and_invalid_length_on_rebuild() {
    let plaintext = b"abcabcabcabc";
    let params = zlib_parameters(6, false);
    let head = |encoder: &mut VerifyPredictionEncoder| {
        encoder.encode_correction(CodecCorrection::BlockTypeCorrection, 0);
        encoder.encode_correction(CodecCorrection::TokenCount, 0);
        for _ in 0..4 {
            encoder.encode_misprediction(CodecMisprediction::LiteralPredictionWrong, false);
        }
        encoder.encode_misprediction(CodecMisprediction::ReferencePredictionWrong, false);
    };
    // The predicted reference is (8, 3). There is one chain entry only.
    let mut encoder = VerifyPredictionEncoder::default();
    head(&mut encoder);
    encoder.encode_correction(CodecCorrection::LenCorrection, 0);
    encoder.encode_correction(CodecCorrection::DistOnlyCorrection, 2);
    let mut decoder = VerifyPredictionDecoder::new(encoder.actions());
    let mut rebuilder = TokenPredictor::new(plaintext, &params, 0);
    assert_eq!(
        rebuilder.recreate_block(&mut decoder),
        Err(PreflateError::HopsOutOfRange)
    );

    // Six bytes less than predicted make a length of 2.
    let mut encoder = VerifyPredictionEncoder::default();
    head(&mut encoder);
    encoder.encode_correction(CodecCorrection::LenCorrection, 11);
    encoder.encode_correction(CodecCorrection::DistAfterLenCorrection, 1);
    let mut decoder = VerifyPredictionDecoder::new(encoder.actions());
    let mut rebuilder = TokenPredictor::new(plaintext, &params, 0);
    assert_eq!(
        rebuilder.recreate_block(&mut decoder),
        Err(PreflateError::InvalidLength)
    );

    // One byte more than predicted is more than is left.
    let mut encoder = VerifyPredictionEncoder::default();
    head(&mut encoder);
    encoder.encode_correction(CodecCorrection::LenCorrection, 2);
    encoder.encode_correction(CodecCorrection::DistAfterLenCorrection, 1);
    let mut decoder = VerifyPredictionDecoder::new(encoder.actions());
    let mut rebuilder = TokenPredictor::new(plaintext, &params, 0);
    assert_eq!(
        rebuilder.recreate_block(&mut decoder),
        Err(PreflateError::PlaintextTooShort)
    );
}

#[test]
fn target_off_the_chain_is_an_error() {
    let plaintext = b"XabcdefabcxyzQ";
    let params = zlib_parameters(6, false);
    let mut tokens = vec![PreflateToken::Literal; 7];
    // Nothing stands five bytes back that repeats here.
    tokens.push(reference(3, 5));
    let block = block_of(BlockType::DynamicHuff, &tokens);
    let mut encoder = VerifyPredictionEncoder::default();
    let mut predictor = TokenPredictor::new(plaintext, &params, 0);
    assert_eq!(
        predictor.predict_block(&block, &mut encoder, false),
        Err(PreflateError::ChainExhausted)
    );
    // Seven tokens were described before the one that failed.
    assert_eq!(predictor.current_token_count, 7);
}

#[test]
fn match_search_results() {
    let plaintext = b"abcabcabcabc";
    let params = zlib_parameters(6, false);
    let mut state = PredictorState::new(plaintext, &params);
    state.update_running_hash(b'a');
    state.update_running_hash(b'b');
    // Nothing is in the dictionary.
    let hash = state.calculate_hash();
    assert_eq!(
        state.match_token(hash, 0, 0, 0),
        MatchResult::DistanceLargerThanHop0(1, 0)
    );
    state.update_hash(4);
    assert_eq!(state.current_input_pos(), 4);
    assert_eq!(state.available_input_size(), 8);
    let hash = state.calculate_hash();
    assert_eq!(
        state.match_token(hash, 0, 0, 0),
        MatchResult::Success(PreflateTokenReference::new(8, 3, false))
    );
    // A match of 8 bytes does not beat one of 8 bytes.
    assert_eq!(
        state.match_token(hash, 8, 0, 0),
        MatchResult::NoInput
    );
    assert_eq!(
        state.match_token(hash, 7, 0, 0),
        MatchResult::Success(PreflateTokenReference::new(8, 3, false))
    );
    // One byte on, the chain of "cab" holds position 2.
    let hash_next = state.calculate_hash_next();
    assert_eq!(
        state.match_token(hash_next, 0, 1, 0),
        MatchResult::Success(PreflateTokenReference::new(7, 3, false))
    );
    // The chain of "bca" does not hold what stands there.
    assert_eq!(
        state.match_token(hash, 0, 1, 0),
        MatchResult::NoMoreMatchesFound { start_len: 0, last_dist: 4 }
    );
    assert_eq!(state.match_token(hash, 0, 10, 0), MatchResult::NoInput);
    assert_eq!(state.match_token(hash, 0, 100, 0), MatchResult::NoInput);
    assert_eq!(state.window_size(), 32768);
    assert_eq!(state.input_cursor(), b"bcabcabc");
    assert_eq!(state.input_cursor_offset(-2), b"cabcabcabc");
}

#[test]
fn hops_and_their_inverse() {
    //                0123456789012345678
    let plaintext = b"abcXabcdYabcZabcdef";
    let params = zlib_parameters(9, false);
    let mut state = PredictorState::new(plaintext, &params);
    state.update_running_hash(b'a');
    state.update_running_hash(b'b');
    state.update_hash(13);
    // The chain of "abc" holds the positions 9, 4 and 0 at the distances 4, 9 and 13.
    let three_far = PreflateTokenReference::new(3, 13, false);
    let four = PreflateTokenReference::new(4, 9, false);
    let three_near = PreflateTokenReference::new(3, 4, false);
    assert_eq!(state.calculate_hops(&three_near), Ok(1));
    assert_eq!(state.calculate_hops(&four), Ok(1));
    assert_eq!(state.calculate_hops(&PreflateTokenReference::new(3, 9, false)), Ok(2));
    assert_eq!(state.calculate_hops(&three_far), Ok(3));
    assert_eq!(state.hop_match(3, 1), Ok(4));
    assert_eq!(state.hop_match(3, 2), Ok(9));
    assert_eq!(state.hop_match(3, 3), Ok(13));
    assert_eq!(state.hop_match(4, 1), Ok(9));
    assert_eq!(state.hop_match(4, 2), Err(PreflateError::HopsOutOfRange));
    assert_eq!(state.hop_match(3, 0), Err(PreflateError::HopsOutOfRange));
    assert_eq!(state.hop_match(2, 1), Err(PreflateError::InvalidLength));
    assert_eq!(state.hop_match(7, 1), Err(PreflateError::PlaintextTooShort));
    assert_eq!(
        state.calculate_hops(&PreflateTokenReference::new(3, 5, false)),
        Err(PreflateError::ChainExhausted)
    );
    assert_eq!(
        state.calculate_hops(&PreflateTokenReference::new(7, 4, false)),
        Err(PreflateError::PlaintextTooShort)
    );
}

#[test]
fn chain_membership() {
    //                0123456789012345678
    let plaintext = b"abcXabcdYabcZabcdef";
    let params = zlib_parameters(9, false);
    let mut state = PredictorState::new(plaintext, &params);
    state.update_running_hash(b'a');
    state.update_running_hash(b'b');
    state.update_hash(13);
    assert!(state.verify_hash(None));
    for dist in [4, 9, 13] {
        assert!(state.verify_hash(Some(PreflateTokenReference::new(3, dist, false))));
    }
    for dist in [0, 1, 5, 12, 14] {
        assert!(!state.verify_hash(Some(PreflateTokenReference::new(3, dist, false))));
    }
    state.update_hash(5);
    assert!(!state.verify_hash(Some(PreflateTokenReference::new(3, 1, false))));
}

#[test]
fn parameters_and_blocks_are_checked() {
    assert!(zlib_parameters(6, false).is_wf());
    let mut params = zlib_parameters(6, false);
    params.hash_shift = 4;
    assert!(!params.is_wf());
    params.hash_mask = 0xfff;
    assert!(params.is_wf());
    params.hash_mask = 0xffe;
    assert!(!params.is_wf());
    let mut params = zlib_parameters(6, false);
    params.window_bits = 16;
    assert!(!params.is_wf());
    params.window_bits = 8;
    assert!(params.is_wf());
    params.log2_of_max_chain_depth_m1 = 31;
    assert!(!params.is_wf());

    let mut block = block_of(BlockType::DynamicHuff, &[PreflateToken::Literal, reference(3, 1)]);
    assert!(block.is_wf());
    block.tokens.push(reference(2, 1));
    assert!(!block.is_wf());
    block.tokens[2] = reference(258, 32768);
    assert!(block.is_wf());
    block.tokens[2] = reference(259, 1);
    assert!(!block.is_wf());
    block.tokens[2] = reference(3, 0);
    assert!(!block.is_wf());
    block.tokens[2] = reference(3, 32769);
    assert!(!block.is_wf());
    block.tokens.pop();
    block.padding_bits = 8;
    assert!(!block.is_wf());
    block.padding_bits = 7;
    block.uncompressed_len = 65536;
    assert!(!block.is_wf());
}

#[test]
fn reference_at_the_distance_of_the_window() {
    // A byte, 32768 bytes without a pattern, and the first ten of them again.
    let mut plaintext = vec![b'#'];
    let mut v: u32 = 7;
    for _ in 0..32768 {
        v = v.wrapping_mul(1664525).wrapping_add(1013904223);
        plaintext.push((v >> 24) as u8);
    }
    let again: Vec<u8> = plaintext[1..11].to_vec();
    plaintext.extend_from_slice(&again);

    let mut tokens = vec![PreflateToken::Literal; 32769];
    tokens.push(reference(10, 32768));

    // An encoder that uses the whole window finds the match.
    let mut params = zlib_parameters(9, false);
    params.very_far_matches_detected = true;
    params.zlib_compatible = false;
    params.log2_of_max_chain_depth_m1 = 12;
    params.max_token_count = 0xffff;
    let mut predictor = TokenPredictor::new(&plaintext, &params, 32769);
    assert_eq!(predictor.predict_token(), reference(10, 32768));
    let block = block_of(BlockType::DynamicHuff, &tokens);
    roundtrip(&plaintext, &params, &[block.clone()]);

    // zlib keeps a distance of 262 bytes less in reach.
    let params = zlib_parameters(9, false);
    let mut predictor = TokenPredictor::new(&plaintext, &params, 32769);
    assert_eq!(predictor.predict_token(), PreflateToken::Literal);
    let mut encoder = VerifyPredictionEncoder::default();
    let mut predictor = TokenPredictor::new(&plaintext, &params, 0);
    assert_eq!(
        predictor.predict_block(&block, &mut encoder, true),
        Err(PreflateError::NoMatchFound)
    );
    assert_eq!(predictor.current_token_count, 32769);
}

#[test]
fn rebuilding_asks_for_each_event_by_its_kind() {
    let plaintext = b"xabcabcabcabc";
    let params = zlib_parameters(6, false);
    let block = block_of(
        BlockType::DynamicHuff,
        &[
            PreflateToken::Literal,
            PreflateToken::Literal,
            PreflateToken::Literal,
            PreflateToken::Literal,
            reference(9, 3),
        ],
    );
    let events = roundtrip(plaintext, &params, &[block]);
    // With an event of another kind in place of one of its own, the
    // decoder is out of step at that event, wherever it stands.
    for at in 0..events.len() {
        let mut changed = events.clone();
        changed[at] = CodecAction::Value(0, 3);
        let mut decoder = VerifyPredictionDecoder::new(changed);
        let mut rebuilder = TokenPredictor::new(plaintext, &params, 0);
        let _ = rebuilder.recreate_block(&mut decoder);
        assert!(!decoder.in_step);
        assert_eq!(decoder.index, at);
    }
    // With an event less, the decoder runs out at the end.
    let mut short = events.clone();
    short.pop();
    let mut decoder = VerifyPredictionDecoder::new(short);
    let mut rebuilder = TokenPredictor::new(plaintext, &params, 0);
    let _ = rebuilder.recreate_block(&mut decoder);
    assert!(!decoder.in_step);
    assert_eq!(decoder.index, events.len() - 1);
}

#[test]
fn rebuilding_counts_the_tokens_before_a_failure() {
    let plaintext = b"abcdefgh";
    let params = zlib_parameters(6, false);
    for rebuilt in 0u32..5 {
        let mut encoder = VerifyPredictionEncoder::default();
        encoder.encode_correction(CodecCorrection::BlockTypeCorrection, 0);
        encoder.encode_correction(CodecCorrection::TokenCount, 0);
        for _ in 0..rebuilt {
            encoder.encode_misprediction(CodecMisprediction::LiteralPredictionWrong, false);
        }
        // A reference where no three bytes repeat.
        encoder.encode_misprediction(CodecMisprediction::LiteralPredictionWrong, true);
        let mut decoder = VerifyPredictionDecoder::new(encoder.actions());
        let mut rebuilder = TokenPredictor::new(plaintext, &params, 0);
        assert!(rebuilder.recreate_block(&mut decoder).is_err());
        assert_eq!(rebuilder.current_token_count, rebuilt);
        assert_eq!(rebuilder.state.current_input_pos(), rebuilt);
        assert!(decoder.finished_in_step());
    }
    // A failure before the first token: no token is counted.
    let mut decoder = VerifyPredictionDecoder::new(vec![
        CodecAction::Correction(CodecCorrection::BlockTypeCorrection, 3),
        CodecAction::Value(9, 16),
        CodecAction::Correction(CodecCorrection::NonZeroPadding, 0),
    ]);
    let mut rebuilder = TokenPredictor::new(plaintext, &params, 0);
    assert_eq!(
        rebuilder.recreate_block(&mut decoder),
        Err(PreflateError::PlaintextTooShort)
    );
    assert_eq!(rebuilder.current_token_count, 0);
}
