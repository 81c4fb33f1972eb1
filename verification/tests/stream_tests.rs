use preflate_rs::block_stream::{predict_stream, recreate_stream, BlockFailure, BlockWithHeader};
use preflate_rs::huffman_calc::HufftreeBitCalc;
use preflate_rs::huffman_encoding::{HuffmanOriginalEncoding, TreeCodeType};
use preflate_rs::preflate_error::PreflateError;
use preflate_rs::preflate_parameter_estimator::PreflateParameters;
use preflate_rs::preflate_token::{BlockType, PreflateTokenBlock};
use preflate_rs::statistical_codec::{
    CodecAction, CodecCorrection, DefaultOnlyDecoder, PredictionDecoder, VerifyPredictionDecoder,
    VerifyPredictionEncoder,
};
use preflate_rs::token_predictor::TokenPredictor;

fn level_six() -> PreflateParameters {
    PreflateParameters {
        window_bits: 15,
        hash_shift: 5,
        hash_mask: 0x7fff,
        max_token_count: 16383,
        zlib_compatible: true,
        matches_to_start_detected: false,
        very_far_matches_detected: false,
        is_fast_compressor: false,
        good_length: 8,
        nice_length: 128,
        max_lazy: 16,
        max_chain: 128,
        max_dist_3_matches: 4096,
        log2_of_max_chain_depth_m1: 0,
    }
}

/// A header of 257 literal and 3 distance codes.
fn small_header() -> HuffmanOriginalEncoding {
    HuffmanOriginalEncoding {
        lengths: vec![
            (TreeCodeType::Code, 4),
            (TreeCodeType::Code, 4),
            (TreeCodeType::Code, 4),
            (TreeCodeType::ZeroLong, 138),
            (TreeCodeType::ZeroLong, 115),
            (TreeCodeType::Code, 3),
            (TreeCodeType::Code, 1),
            (TreeCodeType::Code, 2),
            (TreeCodeType::Code, 2),
        ],
        code_lengths: [0, 3, 2, 3, 0, 0, 0, 0, 3, 0, 0, 0, 0, 0, 0, 0, 0, 0, 0],
        num_literals: 257,
        num_dist: 3,
        num_code_lengths: 19,
    }
}

const PLAINTEXT: &[u8] = b"xabcabcabcabc..hey";

/// Three blocks over the plaintext: a dynamic one of four literals and
/// a reference, a stored one of two bytes and a static one of three
/// literals.
fn three_blocks() -> Vec<BlockWithHeader> {
    let mut first = PreflateTokenBlock::new(BlockType::DynamicHuff);
    for &b in &PLAINTEXT[0..4] {
        first.add_literal(b);
    }
    first.add_reference(9, 3, false);
    let mut second = PreflateTokenBlock::new(BlockType::Stored);
    second.uncompressed_len = 2;
    second.padding_bits = 5;
    let mut third = PreflateTokenBlock::new(BlockType::StaticHuff);
    for &b in &PLAINTEXT[15..18] {
        third.add_literal(b);
    }
    vec![
        BlockWithHeader { block: first, header: Some(small_header()) },
        BlockWithHeader { block: second, header: None },
        BlockWithHeader { block: third, header: None },
    ]
}

/// Describes `blocks` over the plaintext from its start.
fn describe(
    huffcalc: HufftreeBitCalc,
    blocks: &[BlockWithHeader],
    encoder: &mut VerifyPredictionEncoder,
) -> Result<(), BlockFailure> {
    let params = level_six();
    let mut predictor = TokenPredictor::new(PLAINTEXT, &params, 0);
    predict_stream(&mut predictor, huffcalc, blocks, encoder)
}

/// Rebuilds `block_count` blocks over the plaintext from its start.
fn rebuild<D: PredictionDecoder>(
    huffcalc: HufftreeBitCalc,
    block_count: usize,
    decoder: &mut D,
) -> Result<Vec<BlockWithHeader>, BlockFailure> {
    let params = level_six();
    let mut predictor = TokenPredictor::new(PLAINTEXT, &params, 0);
    recreate_stream(&mut predictor, huffcalc, block_count, decoder)
}

#[test]
fn stream_roundtrip_keeps_blocks_and_headers() {
    let blocks = three_blocks();
    for huffcalc in [HufftreeBitCalc::Zlib, HufftreeBitCalc::Miniz] {
        let mut encoder = VerifyPredictionEncoder::default();
        assert_eq!(describe(huffcalc, &blocks, &mut encoder), Ok(()));
        let events = encoder.actions();
        // The first event is the type of the first block, the dynamic
        // one that is expected.
        assert_eq!(events[0], CodecAction::Correction(CodecCorrection::BlockTypeCorrection, 0));
        let mut decoder = VerifyPredictionDecoder::new(events);
        let rebuilt = rebuild(huffcalc, 3, &mut decoder).unwrap();
        assert_eq!(rebuilt, blocks);
        assert!(decoder.finished_in_step());
    }
}

#[test]
fn stream_header_follows_its_block() {
    let blocks = three_blocks();
    let mut encoder = VerifyPredictionEncoder::default();
    describe(HufftreeBitCalc::Zlib, &blocks, &mut encoder).unwrap();
    let all = encoder.actions();
    // The events of the first block alone stand first, and the events
    // of its header behind them.
    let mut alone = VerifyPredictionEncoder::default();
    describe(HufftreeBitCalc::Zlib, &blocks[0..1], &mut alone).unwrap();
    let first = alone.actions();
    let mut decoder = VerifyPredictionDecoder::new(all.clone());
    let rebuilt = rebuild(HufftreeBitCalc::Zlib, 1, &mut decoder)
        .unwrap();
    assert_eq!(rebuilt.len(), 1);
    assert_eq!(rebuilt[0].header, Some(small_header()));
    assert!(decoder.in_step);
    assert!(decoder.index < all.len());
    // Alone, the first block is the last: the flag of the last block
    // changes the token count only.
    assert_eq!(first.len(), decoder.index);
}

#[test]
fn stream_description_fails_on_its_headers() {
    // A dynamic block without a header.
    let mut blocks = three_blocks();
    blocks[0].header = None;
    let mut encoder = VerifyPredictionEncoder::default();
    assert_eq!(
        describe(HufftreeBitCalc::Zlib, &blocks, &mut encoder),
        Err(BlockFailure { block: 0, error: PreflateError::InvalidHeader })
    );
    // A header with a count out of range.
    let mut blocks = three_blocks();
    let mut header = small_header();
    header.num_literals = 256;
    blocks[0].header = Some(header);
    let mut encoder = VerifyPredictionEncoder::default();
    assert_eq!(
        describe(HufftreeBitCalc::Zlib, &blocks, &mut encoder),
        Err(BlockFailure { block: 0, error: PreflateError::InvalidHeader })
    );
    // A header that stands for fewer bit lengths than its alphabets hold.
    let mut blocks = three_blocks();
    let mut header = small_header();
    header.num_dist = 4;
    blocks[0].header = Some(header);
    let mut encoder = VerifyPredictionEncoder::default();
    assert_eq!(
        describe(HufftreeBitCalc::Zlib, &blocks, &mut encoder),
        Err(BlockFailure { block: 0, error: PreflateError::RleLengthMismatch })
    );
    // A header is not looked at where the block is not a dynamic one.
    let mut blocks = three_blocks();
    blocks[2].header = Some(HuffmanOriginalEncoding::default());
    let mut encoder = VerifyPredictionEncoder::default();
    assert_eq!(
        describe(HufftreeBitCalc::Zlib, &blocks, &mut encoder),
        Ok(())
    );
    // A block that covers more than the plaintext.
    let mut blocks = three_blocks();
    blocks[1].block.uncompressed_len = 6;
    let mut encoder = VerifyPredictionEncoder::default();
    assert_eq!(
        describe(HufftreeBitCalc::Zlib, &blocks, &mut encoder),
        Err(BlockFailure { block: 1, error: PreflateError::PlaintextTooShort })
    );
}

#[test]
fn stream_rebuilding_stops_at_the_block_that_fails() {
    let blocks = three_blocks();
    let mut encoder = VerifyPredictionEncoder::default();
    describe(HufftreeBitCalc::Zlib, &blocks[0..2], &mut encoder)
        .unwrap();
    let mut events = encoder.actions();
    // The stored block is described by its type, its length and its padding.
    let first = events.len() - 3;
    assert_eq!(events[first + 1], CodecAction::Value(2, 16));
    events.truncate(first);
    // A block type that does not exist stands behind the first block.
    events.push(CodecAction::Correction(CodecCorrection::BlockTypeCorrection, 2));
    events.push(CodecAction::Correction(CodecCorrection::TokenCount, 0));
    let mut decoder = VerifyPredictionDecoder::new(events);
    assert_eq!(
        rebuild(HufftreeBitCalc::Zlib, 2, &mut decoder),
        Err(BlockFailure { block: 1, error: PreflateError::InvalidBlockType })
    );
    assert_eq!(decoder.index, first + 1);
    // No blocks take no events.
    let mut decoder = VerifyPredictionDecoder::new(vec![]);
    assert_eq!(
        rebuild(HufftreeBitCalc::Zlib, 0, &mut decoder),
        Ok(vec![])
    );
    assert!(decoder.finished_in_step());
}

#[test]
fn stream_of_defaults_is_described_by_defaults() {
    for huffcalc in [HufftreeBitCalc::Zlib, HufftreeBitCalc::Miniz] {
        let mut decoder = DefaultOnlyDecoder::new();
        let rebuilt = rebuild(huffcalc, 1, &mut decoder).unwrap();
        assert_eq!(rebuilt.len(), 1);
        assert_eq!(rebuilt[0].block.block_type, BlockType::DynamicHuff);
        assert!(rebuilt[0].header.is_some());
        let mut encoder = VerifyPredictionEncoder::default();
        assert_eq!(describe(huffcalc, &rebuilt, &mut encoder), Ok(()));
        assert_eq!(encoder.count_nondefault_actions(), 0);
    }
}
