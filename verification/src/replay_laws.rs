//! What holds of a rebuilding whose events come from a decoder that
//! replays a description: the rebuilding asks for each event of the
//! description by its kind, in the order of the description, and for no
//! other, so that the decoder stays in step and what is rebuilt is what
//! the description describes.

use vstd::prelude::*;
use crate::huffman_calc::{HufftreeBitCalc, spec_calc_bit_lengths};
use crate::huffman_encoding::{HeaderModel, TreeCodeType};
use crate::preflate_error::PreflateError;
use crate::preflate_token::{BlockModel, BlockType, FrequencyModel};
use crate::statistical_codec::{
    CodecAction, CodecMisprediction, correction_at, extends, holds_at, left_at,
    lemma_left_at_before, lemma_left_at_behind, lemma_left_at_here, replays,
    spec_decode_difference,
};
use crate::token_predictor::{DecodedBlock, DecodedToken, TokenPredictorModel};
use crate::token_predictor_laws::{
    block_supported, lemma_block_roundtrip, lemma_decode_token_advances, lemma_decode_token_used,
    lemma_decode_tokens_end,
};
use crate::tree_predictor::{
    DecodedCodeTree, DecodedHeader, DecodedLengths, count_in_step, count_used,
    decode_code_lengths, decode_code_tree, decode_count, decode_header, decode_ld,
    predict_code_data_spec, predict_code_type_spec, predicted_bit_lengths, predicted_code_tree,
    strip_from, tree_events,
};
use crate::tree_predictor_laws::{lemma_decode_ld_end, lemma_header_roundtrip};

verus! {

/// A token that the script describes is rebuilt from a log that holds
/// the events of the token; a log that left the script among them is
/// out of step.
pub proof fn lemma_decode_token_left(
    m: TokenPredictorModel,
    script: Seq<CodecAction>,
    log: Seq<CodecAction>,
    at: int,
    left: int,
)
    requires
        left_at(log, script, left),
        0 <= at <= left,
        m.decode_token(script, at) is Ok,
    ensures
        left < at + m.decode_token(script, at).unwrap().used ==> m.decode_token(log, at) == Err::<
            DecodedToken,
            PreflateError,
        >(PreflateError::EventsOutOfStep),
        left >= at + m.decode_token(script, at).unwrap().used ==> m.decode_token(log, at)
            == m.decode_token(script, at),
{
    reveal(TokenPredictorModel::decode_token);
    lemma_left_at_here(log, script, left);
    if at < left {
        lemma_left_at_before(log, script, left, at);
    }
    if at + 1 < left {
        lemma_left_at_before(log, script, left, at + 1);
    }
    if at + 2 < left {
        lemma_left_at_before(log, script, left, at + 2);
    }
    if at + 3 < left {
        lemma_left_at_before(log, script, left, at + 3);
    }
}

/// The tokens that the script describes are rebuilt from a log that
/// holds their events; a log that left the script among them is out of
/// step.
pub proof fn lemma_decode_tokens_left(
    m: TokenPredictorModel,
    script: Seq<CodecAction>,
    log: Seq<CodecAction>,
    at: int,
    blocksize: u32,
    block: BlockModel,
    left: int,
)
    requires
        m.wf(),
        left_at(log, script, left),
        0 <= at <= left,
        m.decode_tokens(script, at, blocksize, block) is Ok,
    ensures
        left < m.decode_tokens(script, at, blocksize, block).unwrap().end ==> m.decode_tokens(
            log,
            at,
            blocksize,
            block,
        ) == Err::<DecodedBlock, PreflateError>(PreflateError::EventsOutOfStep),
        left >= m.decode_tokens(script, at, blocksize, block).unwrap().end ==> m.decode_tokens(
            log,
            at,
            blocksize,
            block,
        ) == m.decode_tokens(script, at, blocksize, block),
    decreases m.state.remaining(),
{
    if m.state.remaining() <= 0 || m.count >= blocksize {
    } else {
        let t = m.decode_token(script, at).unwrap();
        lemma_decode_token_used(m, script, at);
        lemma_decode_token_advances(m, script, at);
        lemma_decode_token_left(m, script, log, at, left);
        let longer = block.with_token(t.token, m.state.data[m.state.pos as int]);
        lemma_decode_tokens_end(t.state, script, at + t.used, blocksize, longer);
        if left >= at + t.used {
            lemma_decode_tokens_left(t.state, script, log, at + t.used, blocksize, longer, left);
        }
    }
}

/// The block that the script describes is rebuilt from a log that holds
/// its events; a log that left the script among them is out of step.
pub proof fn lemma_decode_block_left(
    m: TokenPredictorModel,
    script: Seq<CodecAction>,
    log: Seq<CodecAction>,
    at: int,
    left: int,
)
    requires
        m.wf(),
        left_at(log, script, left),
        0 <= at <= left,
        m.decode_block(script, at) is Ok,
    ensures
        left < m.decode_block(script, at).unwrap().end ==> m.decode_block(log, at) == Err::<
            DecodedBlock,
            PreflateError,
        >(PreflateError::EventsOutOfStep),
        left >= m.decode_block(script, at).unwrap().end ==> m.decode_block(log, at)
            == m.decode_block(script, at),
{
    lemma_left_at_here(log, script, left);
    if at < left {
        lemma_left_at_before(log, script, left, at);
    }
    if at + 1 < left {
        lemma_left_at_before(log, script, left, at + 1);
    }
    if at + 2 < left {
        lemma_left_at_before(log, script, left, at + 2);
    }
    let start = m.start_block();
    let code = spec_decode_difference(BlockType::DynamicHuff.spec_code(), correction_at(script, at));
    match BlockType::spec_from_code(code) {
        None => {},
        Some(BlockType::Stored) => {},
        Some(block_type) => {
            let count = correction_at(script, at + 1);
            let blocksize = if count == 0 {
                m.max_token_count
            } else {
                (count - 1) as u32
            };
            let empty = BlockModel::empty(block_type);
            lemma_decode_tokens_end(start, script, at + 2, blocksize, empty);
            if at + 2 <= left {
                lemma_decode_tokens_left(start, script, log, at + 2, blocksize, empty, left);
            }
        },
    }
}

/// The rebuilding of a block stays in step with a decoder that replays
/// a description of the block. Where the script holds a block at the
/// place `at`, the log of a decoder that replays the script held the
/// events of the script up to that place, and a rebuilding from that
/// place took the events of the log behind it and was not out of step,
/// the log holds events of the script only, and what was rebuilt is the
/// block of the script: every event was asked for by its kind and width,
/// in the order of the script, and none behind the block.
pub proof fn lemma_block_in_step(
    m: TokenPredictorModel,
    script: Seq<CodecAction>,
    log: Seq<CodecAction>,
    at: int,
    outcome: Result<DecodedBlock, PreflateError>,
)
    requires
        m.wf(),
        replays(log, script),
        0 <= at <= script.len(),
        at <= log.len(),
        forall|i: int| 0 <= i < at ==> #[trigger] log[i] == script[i],
        m.decode_block(script, at) is Ok,
        forall|longer: Seq<CodecAction>|
            extends(longer, log) ==> #[trigger] m.decode_block(longer, at) == outcome,
        outcome matches Ok(d) ==> d.end == log.len(),
        outcome != Err::<DecodedBlock, PreflateError>(PreflateError::EventsOutOfStep),
    ensures
        extends(script, log),
        outcome == m.decode_block(script, at),
        log.len() == m.decode_block(script, at).unwrap().end,
{
    if extends(script, log) {
        assert(m.decode_block(script, at) == outcome);
    } else {
        let left = choose|left: int| left_at(log, script, left);
        lemma_left_at_behind(log, script, left, at);
        assert(extends(log, log));
        assert(m.decode_block(log, at) == outcome);
        lemma_decode_block_left(m, script, log, at, left);
    }
}

/// The run-length encoding that the script describes is rebuilt from a
/// log that holds its events; a log that left the script among them is
/// out of step.
pub proof fn lemma_decode_ld_left(
    bit_lengths: Seq<u8>,
    pos: int,
    previous: Option<u8>,
    script: Seq<CodecAction>,
    log: Seq<CodecAction>,
    at: int,
    lengths: Seq<(TreeCodeType, u8)>,
    left: int,
)
    requires
        left_at(log, script, left),
        0 <= at <= left,
        decode_ld(bit_lengths, pos, previous, script, at, lengths) is Ok,
    ensures
        left < decode_ld(bit_lengths, pos, previous, script, at, lengths).unwrap().end ==> decode_ld(
            bit_lengths,
            pos,
            previous,
            log,
            at,
            lengths,
        ) == Err::<DecodedLengths, PreflateError>(PreflateError::EventsOutOfStep),
        left >= decode_ld(bit_lengths, pos, previous, script, at, lengths).unwrap().end
            ==> decode_ld(bit_lengths, pos, previous, log, at, lengths) == decode_ld(
            bit_lengths,
            pos,
            previous,
            script,
            at,
            lengths,
        ),
    decreases bit_lengths.len() - pos,
{
    if pos < 0 || pos >= bit_lengths.len() {
    } else {
        lemma_left_at_here(log, script, left);
        if at < left {
            lemma_left_at_before(log, script, left, at);
        }
        if at + 1 < left {
            lemma_left_at_before(log, script, left, at + 1);
        }
        let symbols = bit_lengths.skip(pos);
        let predicted = predict_code_type_spec(symbols, previous);
        let code_type = TreeCodeType::spec_from_code(
            spec_decode_difference(predicted.spec_code(), correction_at(script, at)),
        ).unwrap();
        let data = spec_decode_difference(
            predict_code_data_spec(symbols, code_type) as u32,
            correction_at(script, at + 1),
        );
        let next = lengths.push((code_type, data as u8));
        let step = code_type.advance(data as int);
        lemma_decode_ld_end(bit_lengths, pos + step, Some(bit_lengths[pos]), script, at + 2, next);
        if at + 2 <= left {
            lemma_decode_ld_left(
                bit_lengths,
                pos + step,
                Some(bit_lengths[pos]),
                script,
                log,
                at + 2,
                next,
                left,
            );
        }
    }
}

/// A count of the header that the script holds is read from a log that
/// holds its events; a log that left the script among them is out of
/// step.
pub proof fn lemma_count_left(
    kind: CodecMisprediction,
    bits: u8,
    script: Seq<CodecAction>,
    log: Seq<CodecAction>,
    at: int,
    left: int,
)
    requires
        left_at(log, script, left),
        0 <= at <= left,
        count_in_step(kind, bits, script, at),
    ensures
        left < at + count_used(script, at) ==> !count_in_step(kind, bits, log, at),
        left >= at + count_used(script, at) ==> count_in_step(kind, bits, log, at) && count_used(
            log,
            at,
        ) == count_used(script, at),
        left >= at + count_used(script, at) ==> forall|predicted: int, base: int| #[trigger]
            decode_count(predicted, base, log, at) == decode_count(predicted, base, script, at),
{
    lemma_left_at_here(log, script, left);
    if at < left {
        lemma_left_at_before(log, script, left, at);
    }
    if at + 1 < left {
        lemma_left_at_before(log, script, left, at + 1);
    }
}

/// The bit lengths of the code-length alphabet that the script describes
/// are rebuilt from a log that holds their events; a log that left the
/// script among them is out of step.
pub proof fn lemma_code_lengths_left(
    predicted: Seq<u8>,
    script: Seq<CodecAction>,
    log: Seq<CodecAction>,
    at: int,
    n: int,
    left: int,
)
    requires
        left_at(log, script, left),
        0 <= at <= left,
        decode_code_lengths(predicted, script, at, n) is Ok,
    ensures
        n > 0 && left < at + n ==> decode_code_lengths(predicted, log, at, n) == Err::<
            Seq<u8>,
            PreflateError,
        >(PreflateError::EventsOutOfStep),
        n <= 0 || left >= at + n ==> decode_code_lengths(predicted, log, at, n)
            == decode_code_lengths(predicted, script, at, n),
    decreases n,
{
    if n > 0 {
        lemma_code_lengths_left(predicted, script, log, at, n - 1, left);
        lemma_left_at_here(log, script, left);
        if at + n - 1 < left {
            lemma_left_at_before(log, script, left, at + n - 1);
        }
    }
}

/// The count and the bit lengths of the code-length alphabet that the
/// script describes are rebuilt from a log that holds their events; a
/// log that left the script among them is out of step.
pub proof fn lemma_code_tree_left(
    huffcalc: HufftreeBitCalc,
    lengths: Seq<(TreeCodeType, u8)>,
    script: Seq<CodecAction>,
    log: Seq<CodecAction>,
    at: int,
    left: int,
)
    requires
        left_at(log, script, left),
        0 <= at <= left,
        decode_code_tree(huffcalc, lengths, script, at) is Ok,
    ensures
        decode_code_tree(huffcalc, lengths, script, at).unwrap().end > at,
        left < decode_code_tree(huffcalc, lengths, script, at).unwrap().end ==> decode_code_tree(
            huffcalc,
            lengths,
            log,
            at,
        ) == Err::<DecodedCodeTree, PreflateError>(PreflateError::EventsOutOfStep),
        left >= decode_code_tree(huffcalc, lengths, script, at).unwrap().end ==> decode_code_tree(
            huffcalc,
            lengths,
            log,
            at,
        ) == decode_code_tree(huffcalc, lengths, script, at),
{
    reveal(decode_code_tree);
    let code_tree = predicted_code_tree(huffcalc, lengths);
    let n = decode_count(strip_from(code_tree, 19), 4, script, at);
    let at_cl = at + count_used(script, at);
    lemma_count_left(CodecMisprediction::TreeCodeCountMisprediction, 4, script, log, at, left);
    if left >= at_cl {
        lemma_code_lengths_left(code_tree, script, log, at_cl, n, left);
    }
}

/// The header that the script describes is rebuilt from a log that
/// holds its events; a log that left the script among them is out of
/// step.
pub proof fn lemma_decode_header_left(
    freq: FrequencyModel,
    huffcalc: HufftreeBitCalc,
    script: Seq<CodecAction>,
    log: Seq<CodecAction>,
    at: int,
    left: int,
)
    requires
        left_at(log, script, left),
        0 <= at <= left,
        decode_header(freq, huffcalc, script, at) is Ok,
    ensures
        left < decode_header(freq, huffcalc, script, at).unwrap().end ==> decode_header(
            freq,
            huffcalc,
            log,
            at,
        ) == Err::<DecodedHeader, PreflateError>(PreflateError::EventsOutOfStep),
        left >= decode_header(freq, huffcalc, script, at).unwrap().end ==> decode_header(
            freq,
            huffcalc,
            log,
            at,
        ) == decode_header(freq, huffcalc, script, at),
{
    reveal(decode_code_tree);
    let literals = spec_calc_bit_lengths(huffcalc, freq.literal_codes, 15);
    let distances = spec_calc_bit_lengths(huffcalc, freq.distance_codes, 15);
    let num_literals = decode_count(literals.len() as int, 257, script, at);
    let at_dist = at + count_used(script, at);
    let num_dist = decode_count(distances.len() as int, 1, script, at_dist);
    let at_ld = at_dist + count_used(script, at_dist);
    let bits = predicted_bit_lengths(huffcalc, freq, num_literals, num_dist);
    let ld = decode_ld(bits, 0, None, script, at_ld, Seq::empty()).unwrap();
    lemma_decode_ld_end(bits, 0, None, script, at_ld, Seq::empty());
    lemma_count_left(CodecMisprediction::LiteralCountMisprediction, 5, script, log, at, left);
    if left >= at_dist {
        lemma_count_left(
            CodecMisprediction::DistanceCountMisprediction,
            5,
            script,
            log,
            at_dist,
            left,
        );
        if left >= at_ld {
            lemma_decode_ld_left(bits, 0, None, script, log, at_ld, Seq::empty(), left);
            if left >= ld.end {
                lemma_code_tree_left(huffcalc, ld.lengths, script, log, ld.end, left);
            }
        }
    }
}

/// The rebuilding of a header stays in step with a decoder that replays
/// a description of the header. Where the script holds a header at the
/// place `at`, the log of a decoder that replays the script held the
/// events of the script up to that place, and a rebuilding from that
/// place took the events of the log behind it and was not out of step,
/// the log holds events of the script only, and what was rebuilt is the
/// header of the script: every event was asked for by its kind and
/// width, in the order of the script, and none behind the header.
pub proof fn lemma_header_in_step(
    freq: FrequencyModel,
    huffcalc: HufftreeBitCalc,
    script: Seq<CodecAction>,
    log: Seq<CodecAction>,
    at: int,
    outcome: Result<DecodedHeader, PreflateError>,
)
    requires
        replays(log, script),
        0 <= at <= script.len(),
        at <= log.len(),
        forall|i: int| 0 <= i < at ==> #[trigger] log[i] == script[i],
        decode_header(freq, huffcalc, script, at) is Ok,
        forall|longer: Seq<CodecAction>|
            extends(longer, log) ==> #[trigger] decode_header(freq, huffcalc, longer, at)
                == outcome,
        outcome matches Ok(d) ==> d.end == log.len(),
        outcome != Err::<DecodedHeader, PreflateError>(PreflateError::EventsOutOfStep),
    ensures
        extends(script, log),
        outcome == decode_header(freq, huffcalc, script, at),
        log.len() == decode_header(freq, huffcalc, script, at).unwrap().end,
{
    if extends(script, log) {
        assert(decode_header(freq, huffcalc, script, at) == outcome);
    } else {
        let left = choose|left: int| left_at(log, script, left);
        lemma_left_at_behind(log, script, left, at);
        assert(extends(log, log));
        assert(decode_header(freq, huffcalc, log, at) == outcome);
        lemma_decode_header_left(freq, huffcalc, script, log, at, left);
    }
}

/// The rebuilding of a run-length encoding stays in step with a decoder
/// that replays a description of it: under the same conditions as for a
/// header, the log holds events of the script only, and what was rebuilt
/// is the run-length encoding of the script.
pub proof fn lemma_ld_in_step(
    bit_lengths: Seq<u8>,
    script: Seq<CodecAction>,
    log: Seq<CodecAction>,
    at: int,
    outcome: Result<DecodedLengths, PreflateError>,
)
    requires
        replays(log, script),
        0 <= at <= script.len(),
        at <= log.len(),
        forall|i: int| 0 <= i < at ==> #[trigger] log[i] == script[i],
        decode_ld(bit_lengths, 0, None, script, at, Seq::empty()) is Ok,
        forall|longer: Seq<CodecAction>|
            extends(longer, log) ==> #[trigger] decode_ld(
                bit_lengths,
                0,
                None,
                longer,
                at,
                Seq::empty(),
            ) == outcome,
        outcome matches Ok(d) ==> d.end == log.len(),
        outcome != Err::<DecodedLengths, PreflateError>(PreflateError::EventsOutOfStep),
    ensures
        extends(script, log),
        outcome == decode_ld(bit_lengths, 0, None, script, at, Seq::empty()),
        log.len() == decode_ld(bit_lengths, 0, None, script, at, Seq::empty()).unwrap().end,
{
    if extends(script, log) {
        assert(decode_ld(bit_lengths, 0, None, script, at, Seq::empty()) == outcome);
    } else {
        let left = choose|left: int| left_at(log, script, left);
        lemma_left_at_behind(log, script, left, at);
        assert(extends(log, log));
        assert(decode_ld(bit_lengths, 0, None, log, at, Seq::empty()) == outcome);
        lemma_decode_ld_left(bit_lengths, 0, None, script, log, at, Seq::empty(), left);
    }
}

/// A block that was described is rebuilt as it was by a rebuilding
/// whose decoder replays the description. Where the script holds the
/// description of `block` at the place `at`, and a rebuilding from that
/// place drew on a decoder that replays the script and had handed out
/// the events of the script up to that place, the rebuilding took the
/// events of the description, each by its kind and in their order, and
/// no other; it gave the block back, with its type and its tokens or,
/// for a stored block, its length and padding, and left the predictor in
/// the state in which the description left it.
pub proof fn lemma_block_roundtrip_in_step(
    m: TokenPredictorModel,
    block: BlockModel,
    last_block: bool,
    script: Seq<CodecAction>,
    log: Seq<CodecAction>,
    at: int,
    outcome: Result<DecodedBlock, PreflateError>,
)
    requires
        m.wf(),
        block_supported(m, block, last_block),
        m.encode_block(block, last_block) is Ok,
        holds_at(script, at, m.encode_block(block, last_block).unwrap().events),
        replays(log, script),
        at <= log.len(),
        forall|i: int| 0 <= i < at ==> #[trigger] log[i] == script[i],
        forall|longer: Seq<CodecAction>|
            extends(longer, log) ==> #[trigger] m.decode_block(longer, at) == outcome,
        outcome matches Ok(d) ==> d.end == log.len(),
        outcome != Err::<DecodedBlock, PreflateError>(PreflateError::EventsOutOfStep),
    ensures
        extends(script, log),
        log.len() == at + m.encode_block(block, last_block).unwrap().events.len(),
        outcome is Ok,
        ({
            let enc = m.encode_block(block, last_block).unwrap();
            let d = outcome.unwrap();
            &&& d.state == enc.state
            &&& d.block.block_type == block.block_type
            &&& block.block_type == BlockType::Stored ==> d.block.uncompressed_len
                == block.uncompressed_len && d.block.padding_bits == block.padding_bits
            &&& block.block_type != BlockType::Stored ==> d.block.tokens == block.tokens
        }),
{
    lemma_block_roundtrip(m, block, last_block, script, at);
    lemma_block_in_step(m, script, log, at, outcome);
}

/// A header that was described is rebuilt as it was by a rebuilding
/// whose decoder replays the description: under the same conditions as
/// for a block, the rebuilding took the events of the description, each
/// by its kind and width and in their order, and no other, and gave the
/// header back.
pub proof fn lemma_header_roundtrip_in_step(
    header: HeaderModel,
    freq: FrequencyModel,
    huffcalc: HufftreeBitCalc,
    script: Seq<CodecAction>,
    log: Seq<CodecAction>,
    at: int,
    outcome: Result<DecodedHeader, PreflateError>,
)
    requires
        header.wf(),
        holds_at(script, at, tree_events(header, freq, huffcalc)),
        replays(log, script),
        at <= log.len(),
        forall|i: int| 0 <= i < at ==> #[trigger] log[i] == script[i],
        forall|longer: Seq<CodecAction>|
            extends(longer, log) ==> #[trigger] decode_header(freq, huffcalc, longer, at)
                == outcome,
        outcome matches Ok(d) ==> d.end == log.len(),
        outcome != Err::<DecodedHeader, PreflateError>(PreflateError::EventsOutOfStep),
    ensures
        extends(script, log),
        log.len() == at + tree_events(header, freq, huffcalc).len(),
        outcome == Ok::<DecodedHeader, PreflateError>(
            DecodedHeader { header, end: at + tree_events(header, freq, huffcalc).len() },
        ),
{
    lemma_header_roundtrip(header, freq, huffcalc, script, at);
    lemma_header_in_step(freq, huffcalc, script, log, at, outcome);
}

} // verus!
