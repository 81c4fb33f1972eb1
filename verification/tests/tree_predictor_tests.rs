use preflate_rs::huffman_calc::HufftreeBitCalc;
use preflate_rs::huffman_encoding::{HuffmanOriginalEncoding, TreeCodeType};
use preflate_rs::preflate_error::PreflateError;
use preflate_rs::preflate_token::TokenFrequency;
use preflate_rs::statistical_codec::{
    CodecAction, CodecCorrection, CodecMisprediction, DefaultOnlyDecoder, PredictionEncoder,
    VerifyPredictionDecoder, VerifyPredictionEncoder,
};
use preflate_rs::tree_predictor::{
    calc_codetree_freq, calc_tc_lengths_without_trailing_zeros, predict_code_data,
    predict_code_type, predict_ld_trees, predict_tree_for_block, reconstruct_ld_trees,
    recreate_tree_for_block,
};

fn sample_frequency() -> TokenFrequency {
    let mut freq = TokenFrequency::default();
    freq.literal_codes[0] = 100;
    freq.literal_codes[1] = 50;
    freq.literal_codes[2] = 25;
    freq.distance_codes[0] = 100;
    freq.distance_codes[1] = 50;
    freq.distance_codes[2] = 25;
    freq
}

fn sample_header() -> HuffmanOriginalEncoding {
    HuffmanOriginalEncoding {
        lengths: vec![
            (TreeCodeType::Code, 4),
            (TreeCodeType::Code, 4),
            (TreeCodeType::Code, 4),
            (TreeCodeType::ZeroLong, 138),
            (TreeCodeType::ZeroLong, 115),
            (TreeCodeType::Code, 3),
            (TreeCodeType::Code, 1),
            (TreeCodeType::Code, 2),
            (TreeCodeType::Code, 2),
        ],
        code_lengths: [0, 3, 2, 3, 0, 0, 0, 0, 3, 0, 0, 0, 0, 0, 0, 0, 0, 0, 0],
        num_literals: 257,
        num_dist: 3,
        num_code_lengths: 19,
    }
}

#[test]
fn encode_roundtrip_perfect() {
    for huffcalc in [HufftreeBitCalc::Miniz, HufftreeBitCalc::Zlib] {
        let mut freq = TokenFrequency::default();
        freq.literal_codes[0] = 100;
        freq.literal_codes[1] = 50;
        freq.literal_codes[2] = 25;

        freq.distance_codes[0] = 100;
        freq.distance_codes[1] = 50;
        freq.distance_codes[2] = 25;

        let mut empty_decoder = DefaultOnlyDecoder::new();
        let regenerated_header =
            recreate_tree_for_block(&freq, &mut empty_decoder, huffcalc).unwrap();

        assert_eq!(regenerated_header.num_literals, 257);
        assert_eq!(regenerated_header.num_dist, 3);
        assert_eq!(regenerated_header.lengths[0], (TreeCodeType::Code, 1));
        assert_eq!(regenerated_header.lengths[1], (TreeCodeType::Code, 2));
        assert_eq!(regenerated_header.lengths[2], (TreeCodeType::Code, 3));

        let mut empty_encoder = VerifyPredictionEncoder::default();
        predict_tree_for_block(&regenerated_header, &freq, &mut empty_encoder, huffcalc).unwrap();
        assert_eq!(empty_encoder.count_nondefault_actions(), 0);
    }
}

#[test]
fn encode_perfect_encoding() {
    let mut freq = TokenFrequency::default();
    // counts without a pattern
    let mut v: u16 = 10;
    freq.literal_codes.fill_with(|| {
        v = v.wrapping_add(997);
        v
    });
    freq.distance_codes.fill_with(|| {
        v = v.wrapping_add(997);
        v
    });

    // a decoder for which every prediction is right
    let mut default_only_decoder = DefaultOnlyDecoder::new();
    let default_encoding =
        recreate_tree_for_block(&freq, &mut default_only_decoder, HufftreeBitCalc::Zlib).unwrap();

    // the header that it gives is described without a correction
    let mut empty_encoder = VerifyPredictionEncoder::default();
    predict_tree_for_block(
        &default_encoding,
        &freq,
        &mut empty_encoder,
        HufftreeBitCalc::Zlib,
    )
    .unwrap();
    assert_eq!(empty_encoder.count_nondefault_actions(), 0);
}

#[test]
fn encode_tree_roundtrip() {
    let mut freq = TokenFrequency::default();
    freq.literal_codes[0] = 100;
    freq.literal_codes[1] = 50;
    freq.literal_codes[2] = 25;

    freq.distance_codes[0] = 100;
    freq.distance_codes[1] = 50;
    freq.distance_codes[2] = 25;

    let huff_origin = HuffmanOriginalEncoding {
        lengths: vec![
            (TreeCodeType::Code, 4),
            (TreeCodeType::Code, 4),
            (TreeCodeType::Code, 4),
            (TreeCodeType::ZeroLong, 138),
            (TreeCodeType::ZeroLong, 115),
            (TreeCodeType::Code, 3),
            (TreeCodeType::Code, 1),
            (TreeCodeType::Code, 2),
            (TreeCodeType::Code, 2),
        ],
        code_lengths: [0, 3, 2, 3, 0, 0, 0, 0, 3, 0, 0, 0, 0, 0, 0, 0, 0, 0, 0],
        num_literals: 257,
        num_dist: 3,
        num_code_lengths: 19,
    };

    let mut encoder = VerifyPredictionEncoder::default();

    predict_tree_for_block(&huff_origin, &freq, &mut encoder, HufftreeBitCalc::Zlib).unwrap();

    let mut decoder = VerifyPredictionDecoder::new(encoder.actions());

    let regenerated_header =
        recreate_tree_for_block(&freq, &mut decoder, HufftreeBitCalc::Zlib).unwrap();

    assert_eq!(huff_origin, regenerated_header);
}

#[test]
fn tree_roundtrip_consumes_every_event() {
    for huffcalc in [HufftreeBitCalc::Miniz, HufftreeBitCalc::Zlib] {
        let freq = sample_frequency();
        let huff_origin = sample_header();
        let mut encoder = VerifyPredictionEncoder::default();
        predict_tree_for_block(&huff_origin, &freq, &mut encoder, huffcalc).unwrap();
        let mut decoder = VerifyPredictionDecoder::new(encoder.actions());
        let regenerated = recreate_tree_for_block(&freq, &mut decoder, huffcalc).unwrap();
        assert_eq!(huff_origin, regenerated);
        assert!(decoder.finished_in_step());
    }
}

#[test]
fn tree_code_count_misprediction_carries_the_count() {
    // The header sends all 19 code lengths where 18 would do.
    let freq = sample_frequency();
    let huff_origin = sample_header();
    let mut encoder = VerifyPredictionEncoder::default();
    predict_tree_for_block(&huff_origin, &freq, &mut encoder, HufftreeBitCalc::Zlib).unwrap();
    let actions = encoder.actions();
    let at = actions
        .iter()
        .position(|a| {
            matches!(
                a,
                CodecAction::Misprediction(CodecMisprediction::TreeCodeCountMisprediction, _)
            )
        })
        .unwrap();
    assert_eq!(
        actions[at],
        CodecAction::Misprediction(CodecMisprediction::TreeCodeCountMisprediction, true)
    );
    assert_eq!(actions[at + 1], CodecAction::Value(15, 4));
    let count = actions
        .iter()
        .filter(|a| {
            matches!(
                a,
                CodecAction::Misprediction(CodecMisprediction::TreeCodeCountMisprediction, _)
            )
        })
        .count();
    assert_eq!(count, 1);
    // 19 corrections of code lengths follow.
    assert_eq!(actions.len(), at + 2 + 19);
}

#[test]
fn rebuilt_header_covers_both_alphabets() {
    for huffcalc in [HufftreeBitCalc::Miniz, HufftreeBitCalc::Zlib] {
        let freq = sample_frequency();
        let mut decoder = DefaultOnlyDecoder::new();
        let header = recreate_tree_for_block(&freq, &mut decoder, huffcalc).unwrap();
        let sum: usize = header
            .lengths
            .iter()
            .map(|&(t, d)| if t == TreeCodeType::Code { 1 } else { d as usize })
            .sum();
        assert_eq!(sum, header.num_literals + header.num_dist);
        assert_eq!(sum, 260);
    }
}

#[test]
fn predicted_code_types() {
    assert_eq!(predict_code_type(&[0, 0, 5], None), TreeCodeType::Code);
    assert_eq!(predict_code_type(&[0, 0, 0, 5], None), TreeCodeType::ZeroShort);
    assert_eq!(predict_code_type(&[0; 10], None), TreeCodeType::ZeroShort);
    assert_eq!(predict_code_type(&[0; 11], None), TreeCodeType::ZeroLong);
    assert_eq!(predict_code_type(&[0; 200], Some(3)), TreeCodeType::ZeroLong);
    assert_eq!(predict_code_type(&[4, 4, 4, 1], None), TreeCodeType::Code);
    assert_eq!(predict_code_type(&[4, 4, 4, 1], Some(4)), TreeCodeType::Repeat);
    assert_eq!(predict_code_type(&[4, 4, 1], Some(4)), TreeCodeType::Code);
    assert_eq!(predict_code_type(&[4, 4, 4, 1], Some(5)), TreeCodeType::Code);
    assert_eq!(predict_code_type(&[7], Some(7)), TreeCodeType::Code);
}

#[test]
fn predicted_code_data() {
    assert_eq!(predict_code_data(&[9, 1], TreeCodeType::Code), 9);
    assert_eq!(predict_code_data(&[4, 4, 4, 1], TreeCodeType::Repeat), 3);
    assert_eq!(predict_code_data(&[4, 4, 4, 4, 4, 1], TreeCodeType::Repeat), 5);
    assert_eq!(predict_code_data(&[4; 20], TreeCodeType::Repeat), 6);
    assert_eq!(predict_code_data(&[4, 4], TreeCodeType::Repeat), 3);
    assert_eq!(predict_code_data(&[0, 0, 0, 1], TreeCodeType::ZeroShort), 3);
    assert_eq!(predict_code_data(&[0; 7], TreeCodeType::ZeroShort), 7);
    assert_eq!(predict_code_data(&[0; 50], TreeCodeType::ZeroShort), 10);
    assert_eq!(predict_code_data(&[0; 11], TreeCodeType::ZeroLong), 11);
    assert_eq!(predict_code_data(&[0; 100], TreeCodeType::ZeroLong), 100);
    assert_eq!(predict_code_data(&[0; 200], TreeCodeType::ZeroLong), 138);
    assert_eq!(predict_code_data(&[0; 5], TreeCodeType::ZeroLong), 11);
}

#[test]
fn code_tree_frequencies() {
    let freq = calc_codetree_freq(&sample_header().lengths);
    let mut expected = [0u16; 19];
    expected[4] = 3;
    expected[18] = 2;
    expected[3] = 1;
    expected[1] = 1;
    expected[2] = 2;
    assert_eq!(freq, expected);
    assert_eq!(calc_codetree_freq(&[]), [0u16; 19]);
    let freq = calc_codetree_freq(&[(TreeCodeType::Repeat, 3), (TreeCodeType::ZeroShort, 5)]);
    assert_eq!(freq[16], 1);
    assert_eq!(freq[17], 1);
}

#[test]
fn trailing_zeros_are_stripped_in_order() {
    // The order is 16, 17, 18, 0, 8, 7, 9, 6, 10, 5, 11, 4, 12, 3, 13, 2, 14, 1, 15.
    assert_eq!(calc_tc_lengths_without_trailing_zeros(&[0u8; 19]), 4);
    let mut lengths = [0u8; 19];
    lengths[15] = 1;
    assert_eq!(calc_tc_lengths_without_trailing_zeros(&lengths), 19);
    let mut lengths = [0u8; 19];
    lengths[1] = 3;
    assert_eq!(calc_tc_lengths_without_trailing_zeros(&lengths), 18);
    let mut lengths = [0u8; 19];
    lengths[8] = 3;
    assert_eq!(calc_tc_lengths_without_trailing_zeros(&lengths), 5);
    let mut lengths = [0u8; 19];
    lengths[16] = 3;
    assert_eq!(calc_tc_lengths_without_trailing_zeros(&lengths), 4);
    let mut lengths = [1u8; 19];
    lengths[15] = 0;
    lengths[1] = 0;
    assert_eq!(calc_tc_lengths_without_trailing_zeros(&lengths), 17);
}

#[test]
fn ld_trees_roundtrip_with_corrections() {
    let predicted: Vec<u8> = vec![3, 3, 3, 3, 0, 0, 0, 0, 0, 5, 5, 5, 5, 5, 5, 5, 2];
    let targets = vec![
        (TreeCodeType::Code, 3),
        (TreeCodeType::Repeat, 3),
        (TreeCodeType::ZeroShort, 5),
        (TreeCodeType::Code, 6),
        (TreeCodeType::Repeat, 6),
        (TreeCodeType::Code, 2),
    ];
    let mut encoder = VerifyPredictionEncoder::default();
    predict_ld_trees(&mut encoder, &predicted, &targets).unwrap();
    assert_eq!(encoder.actions().len(), 12);
    // Only the bit length 6 where 5 is predicted needs a correction.
    assert_eq!(encoder.count_nondefault_actions(), 1);
    assert_eq!(
        encoder.actions()[7],
        CodecAction::Correction(CodecCorrection::LDBitLengthCorrection, 2)
    );
    let mut decoder = VerifyPredictionDecoder::new(encoder.actions());
    let rebuilt = reconstruct_ld_trees(&mut decoder, &predicted).unwrap();
    assert_eq!(rebuilt, targets);
    assert!(decoder.finished_in_step());
}

#[test]
fn ld_trees_reject_a_run_that_is_too_long() {
    let predicted: Vec<u8> = vec![0, 0, 0, 0];
    let mut encoder = VerifyPredictionEncoder::default();
    encoder.encode_correction(CodecCorrection::LDTypeCorrection, 0);
    // Two more zeros than there are bit lengths.
    encoder.encode_correction(CodecCorrection::RepeatCountCorrection, 4);
    let mut decoder = VerifyPredictionDecoder::new(encoder.actions());
    assert_eq!(
        reconstruct_ld_trees(&mut decoder, &predicted),
        Err(PreflateError::RleLengthMismatch)
    );
}

#[test]
fn ld_trees_reject_an_unknown_code_type() {
    let predicted: Vec<u8> = vec![1, 2];
    let mut encoder = VerifyPredictionEncoder::default();
    encoder.encode_correction(CodecCorrection::LDTypeCorrection, 8);
    let mut decoder = VerifyPredictionDecoder::new(encoder.actions());
    assert_eq!(
        reconstruct_ld_trees(&mut decoder, &predicted),
        Err(PreflateError::InvalidTreeCodeType)
    );
}

#[test]
fn ld_trees_reject_data_out_of_range() {
    let predicted: Vec<u8> = vec![1, 2];
    let mut encoder = VerifyPredictionEncoder::default();
    encoder.encode_correction(CodecCorrection::LDTypeCorrection, 0);
    // The bit length 1 + 20 does not exist.
    encoder.encode_correction(CodecCorrection::LDBitLengthCorrection, 40);
    let mut decoder = VerifyPredictionDecoder::new(encoder.actions());
    assert_eq!(
        reconstruct_ld_trees(&mut decoder, &predicted),
        Err(PreflateError::InvalidHeader)
    );
}

#[test]
fn header_counts_out_of_range_are_rejected() {
    let freq = sample_frequency();
    let mut encoder = VerifyPredictionEncoder::default();
    encoder.encode_misprediction(CodecMisprediction::LiteralCountMisprediction, true);
    encoder.encode_value(30, 5);
    let mut decoder = VerifyPredictionDecoder::new(encoder.actions());
    assert_eq!(
        recreate_tree_for_block(&freq, &mut decoder, HufftreeBitCalc::Zlib),
        Err(PreflateError::InvalidHeader)
    );
}

#[test]
fn distance_count_correction_resizes_the_distances() {
    let freq = sample_frequency();
    let mut header = sample_header();
    // Five distance codes where three are predicted.
    header.num_dist = 5;
    header.lengths = vec![
        (TreeCodeType::Code, 1),
        (TreeCodeType::Code, 2),
        (TreeCodeType::Code, 3),
        (TreeCodeType::ZeroLong, 138),
        (TreeCodeType::ZeroLong, 115),
        (TreeCodeType::Code, 3),
        (TreeCodeType::Code, 1),
        (TreeCodeType::Code, 2),
        (TreeCodeType::Code, 2),
        (TreeCodeType::Code, 7),
        (TreeCodeType::Code, 7),
    ];
    header.code_lengths = [0, 3, 2, 3, 0, 0, 0, 3, 3, 0, 0, 0, 0, 0, 0, 0, 0, 0, 0];
    for huffcalc in [HufftreeBitCalc::Miniz, HufftreeBitCalc::Zlib] {
        let mut encoder = VerifyPredictionEncoder::default();
        predict_tree_for_block(&header, &freq, &mut encoder, huffcalc).unwrap();
        assert_eq!(
            encoder.actions()[1],
            CodecAction::Misprediction(CodecMisprediction::DistanceCountMisprediction, true)
        );
        assert_eq!(encoder.actions()[2], CodecAction::Value(4, 5));
        let mut decoder = VerifyPredictionDecoder::new(encoder.actions());
        let rebuilt = recreate_tree_for_block(&freq, &mut decoder, huffcalc).unwrap();
        assert_eq!(header, rebuilt);
        assert!(decoder.finished_in_step());
    }
}

#[test]
fn headers_are_checked() {
    assert!(sample_header().is_wf());
    assert!(!HuffmanOriginalEncoding::default().is_wf());
    let mut header = sample_header();
    header.num_dist = 4;
    assert!(!header.is_wf());
    let mut header = sample_header();
    header.lengths[0] = (TreeCodeType::Code, 16);
    assert!(!header.is_wf());
    let mut header = sample_header();
    header.lengths[3] = (TreeCodeType::ZeroLong, 139);
    assert!(!header.is_wf());
    let mut header = sample_header();
    header.lengths.push((TreeCodeType::Code, 1));
    assert!(!header.is_wf());
    let mut header = sample_header();
    header.code_lengths[0] = 8;
    assert!(!header.is_wf());
    let mut header = sample_header();
    header.num_code_lengths = 17;
    assert!(!header.is_wf());
    header.num_code_lengths = 18;
    assert!(header.is_wf());
    header.num_literals = 256;
    assert!(!header.is_wf());
}

#[test]
fn ld_trees_with_the_wrong_number_of_lengths_are_not_described() {
    let predicted: Vec<u8> = vec![1, 2, 3, 3];
    // One bit length too few, and seven too many.
    for targets in [
        vec![(TreeCodeType::Code, 1), (TreeCodeType::Code, 2), (TreeCodeType::Code, 3)],
        vec![(TreeCodeType::Code, 1), (TreeCodeType::ZeroShort, 10)],
        vec![],
    ] {
        let mut encoder = VerifyPredictionEncoder::default();
        encoder.encode_correction(CodecCorrection::TokenCount, 7);
        assert_eq!(
            predict_ld_trees(&mut encoder, &predicted, &targets),
            Err(PreflateError::RleLengthMismatch)
        );
        assert_eq!(
            encoder.actions(),
            vec![CodecAction::Correction(CodecCorrection::TokenCount, 7)]
        );
    }
    // The same entries over as many bit lengths as they stand for.
    let mut encoder = VerifyPredictionEncoder::default();
    let targets = vec![(TreeCodeType::Code, 1), (TreeCodeType::ZeroShort, 3)];
    assert_eq!(predict_ld_trees(&mut encoder, &predicted, &targets), Ok(()));
    assert_eq!(encoder.actions().len(), 4);
}

#[test]
fn header_that_does_not_cover_its_alphabets_is_not_described() {
    let freq = sample_frequency();
    for huffcalc in [HufftreeBitCalc::Miniz, HufftreeBitCalc::Zlib] {
        // One distance code more than the entries stand for.
        let mut header = sample_header();
        header.num_dist = 4;
        assert!(header.is_ranges_wf());
        assert!(!header.is_wf());
        let mut encoder = VerifyPredictionEncoder::default();
        assert_eq!(
            predict_tree_for_block(&header, &freq, &mut encoder, huffcalc),
            Err(PreflateError::RleLengthMismatch)
        );
        assert!(encoder.actions().is_empty());
        // One entry more than the alphabets hold.
        let mut header = sample_header();
        header.lengths.push((TreeCodeType::Code, 1));
        assert!(header.is_ranges_wf());
        let mut encoder = VerifyPredictionEncoder::default();
        assert_eq!(
            predict_tree_for_block(&header, &freq, &mut encoder, huffcalc),
            Err(PreflateError::RleLengthMismatch)
        );
        assert!(encoder.actions().is_empty());
    }
}

#[test]
fn header_rebuilding_stops_at_the_event_that_fails() {
    let freq = sample_frequency();
    // The count of literals is read and found too large: the two events
    // of the count were taken, and no other.
    let mut encoder = VerifyPredictionEncoder::default();
    encoder.encode_misprediction(CodecMisprediction::LiteralCountMisprediction, true);
    encoder.encode_value(30, 5);
    encoder.encode_misprediction(CodecMisprediction::DistanceCountMisprediction, false);
    let mut decoder = VerifyPredictionDecoder::new(encoder.actions());
    assert_eq!(
        recreate_tree_for_block(&freq, &mut decoder, HufftreeBitCalc::Zlib),
        Err(PreflateError::InvalidHeader)
    );
    assert_eq!(decoder.index, 2);
    // A bit length of the code-length alphabet above 7.
    let header = sample_header();
    let mut encoder = VerifyPredictionEncoder::default();
    predict_tree_for_block(&header, &freq, &mut encoder, HufftreeBitCalc::Zlib).unwrap();
    let mut actions = encoder.actions();
    let n = actions.len();
    let first_code_length = n - 19;
    assert!(matches!(
        actions[first_code_length],
        CodecAction::Correction(CodecCorrection::TreeCodeBitLengthCorrection, _)
    ));
    actions[first_code_length] =
        CodecAction::Correction(CodecCorrection::TreeCodeBitLengthCorrection, 16);
    let mut decoder = VerifyPredictionDecoder::new(actions);
    assert_eq!(
        recreate_tree_for_block(&freq, &mut decoder, HufftreeBitCalc::Zlib),
        Err(PreflateError::InvalidHeader)
    );
    assert_eq!(decoder.index, first_code_length + 1);
}

#[test]
fn header_rebuilding_asks_for_each_event_by_its_kind() {
    let freq = sample_frequency();
    let header = sample_header();
    for huffcalc in [HufftreeBitCalc::Miniz, HufftreeBitCalc::Zlib] {
        let mut encoder = VerifyPredictionEncoder::default();
        predict_tree_for_block(&header, &freq, &mut encoder, huffcalc).unwrap();
        let events = encoder.actions();
        for at in 0..events.len() {
            let mut changed = events.clone();
            // A raw field of a width that no count of a header has.
            changed[at] = CodecAction::Value(0, 3);
            let mut decoder = VerifyPredictionDecoder::new(changed);
            let _ = recreate_tree_for_block(&freq, &mut decoder, huffcalc);
            assert!(!decoder.in_step);
            assert_eq!(decoder.index, at);
        }
    }
}

#[test]
fn header_counts_are_raw_fields_of_their_width() {
    let freq = sample_frequency();
    // The count of literals is a field of 5 bits: one of 7 bits in its
    // place is not taken.
    let mut decoder = VerifyPredictionDecoder::new(vec![
        CodecAction::Misprediction(CodecMisprediction::LiteralCountMisprediction, true),
        CodecAction::Value(1, 7),
    ]);
    let _ = recreate_tree_for_block(&freq, &mut decoder, HufftreeBitCalc::Zlib);
    assert!(!decoder.in_step);
    assert_eq!(decoder.index, 1);
    // A misprediction of another kind in place of the first event is not taken.
    let mut decoder = VerifyPredictionDecoder::new(vec![CodecAction::Misprediction(
        CodecMisprediction::IrregularLen258,
        false,
    )]);
    let _ = recreate_tree_for_block(&freq, &mut decoder, HufftreeBitCalc::Zlib);
    assert!(!decoder.in_step);
    assert_eq!(decoder.index, 0);
}
