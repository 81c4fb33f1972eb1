use preflate_rs::statistical_codec::{
    decode_difference, encode_difference, CodecAction, CodecCorrection, CodecMisprediction,
    DefaultOnlyDecoder, PredictionDecoder, PredictionEncoder, VerifyPredictionDecoder,
    VerifyPredictionEncoder,
};

#[test]
fn difference_is_a_zigzag() {
    assert_eq!(encode_difference(5, 5), 0);
    assert_eq!(encode_difference(5, 4), 1);
    assert_eq!(encode_difference(5, 6), 2);
    assert_eq!(encode_difference(5, 3), 3);
    assert_eq!(encode_difference(5, 7), 4);
    assert_eq!(encode_difference(2, 0), 3);
    assert_eq!(encode_difference(0, 258), 516);
    assert_eq!(encode_difference(258, 3), 509);
    assert_eq!(encode_difference(0x8000_0000, 0), u32::MAX);
    assert_eq!(encode_difference(0, 0x7fff_ffff), 0xffff_fffe);
}

#[test]
fn difference_decodes_to_the_actual_value() {
    for predicted in [0u32, 1, 2, 3, 15, 258, 1000] {
        for actual in [0u32, 1, 2, 3, 7, 15, 257, 258, 4096] {
            let encoded = encode_difference(predicted, actual);
            assert_eq!(decode_difference(predicted, encoded), actual);
            assert_eq!(encoded == 0, predicted == actual);
        }
        assert_eq!(decode_difference(predicted, 0), predicted);
    }
    assert_eq!(decode_difference(5, 1), 4);
    assert_eq!(decode_difference(5, 2), 6);
    assert_eq!(decode_difference(5, 11), u32::MAX);
    assert_eq!(decode_difference(u32::MAX, 2), 0);
}

#[test]
fn encoder_keeps_the_events_in_order() {
    let mut encoder = VerifyPredictionEncoder::new();
    encoder.encode_verify_state("start", 17);
    encoder.encode_misprediction(CodecMisprediction::NonZeroPadding, false);
    encoder.encode_correction(CodecCorrection::TokenCount, 0);
    assert_eq!(encoder.count_nondefault_actions(), 0);
    encoder.encode_value(0, 5);
    encoder.encode_correction(CodecCorrection::LenCorrection, 3);
    encoder.encode_misprediction(CodecMisprediction::IrregularLen258, true);
    assert_eq!(encoder.count_nondefault_actions(), 3);
    assert_eq!(
        encoder.actions(),
        vec![
            CodecAction::Misprediction(CodecMisprediction::NonZeroPadding, false),
            CodecAction::Correction(CodecCorrection::TokenCount, 0),
            CodecAction::Value(0, 5),
            CodecAction::Correction(CodecCorrection::LenCorrection, 3),
            CodecAction::Misprediction(CodecMisprediction::IrregularLen258, true),
        ]
    );
}

#[test]
fn decoder_hands_the_events_out_in_step() {
    let actions = vec![
        CodecAction::Misprediction(CodecMisprediction::LiteralPredictionWrong, true),
        CodecAction::Correction(CodecCorrection::LenCorrection, 7),
        CodecAction::Value(300, 16),
    ];
    let mut decoder = VerifyPredictionDecoder::new(actions.clone());
    decoder.decode_verify_state("start", 0);
    assert!(decoder.decode_misprediction(CodecMisprediction::LiteralPredictionWrong));
    assert_eq!(decoder.decode_correction(CodecCorrection::LenCorrection), 7);
    assert!(!decoder.finished_in_step());
    assert_eq!(decoder.decode_value(16), 300);
    assert!(decoder.finished_in_step());
    // Beyond the last event every prediction is right, and the step is lost.
    assert_eq!(decoder.decode_correction(CodecCorrection::LenCorrection), 0);
    assert!(!decoder.finished_in_step());

    // An event of another kind is not handed out.
    let mut decoder = VerifyPredictionDecoder::new(actions.clone());
    assert_eq!(decoder.decode_correction(CodecCorrection::LenCorrection), 0);
    assert!(!decoder.decode_misprediction(CodecMisprediction::LiteralPredictionWrong));
    assert!(!decoder.finished_in_step());
    let mut decoder = VerifyPredictionDecoder::new(actions.clone());
    assert!(!decoder.decode_misprediction(CodecMisprediction::ReferencePredictionWrong));
    let mut decoder = VerifyPredictionDecoder::new(actions);
    assert!(decoder.decode_misprediction(CodecMisprediction::LiteralPredictionWrong));
    assert_eq!(decoder.decode_correction(CodecCorrection::LenCorrection), 7);
    assert_eq!(decoder.decode_value(5), 0);
}

#[test]
fn default_decoder_says_every_prediction_is_right() {
    let mut decoder = DefaultOnlyDecoder::default();
    assert!(!decoder.decode_misprediction(CodecMisprediction::LiteralCountMisprediction));
    assert_eq!(decoder.decode_correction(CodecCorrection::BlockTypeCorrection), 0);
    assert_eq!(decoder.decode_value(16), 0);
    decoder.decode_verify_state("done", 1);
}
