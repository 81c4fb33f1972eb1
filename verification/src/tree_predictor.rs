//! Prediction of the header of a dynamic Huffman block from the symbol
//! counts of the block.

use vstd::prelude::*;
use crate::bit_helper::byte_run;
use crate::huffman_calc::{HufftreeBitCalc, calc_bit_lengths, spec_calc_bit_lengths};
use crate::huffman_encoding::{
    HeaderModel, HuffmanOriginalEncoding, TreeCodeType, lemma_rle_len_grows, rle_covers,
    rle_entries_wf, rle_len,
};
use crate::preflate_constants::{lemma_tree_code_order_distinct, tree_code_at, tree_code_order};
use crate::preflate_error::PreflateError;
use crate::preflate_token::{FrequencyModel, TokenFrequency, count_symbol};
use crate::statistical_codec::{
    CodecAction, CodecCorrection, CodecMisprediction, PredictionDecoder, PredictionEncoder,
    correction_at, decode_difference, encode_difference, extends, is_correction, is_misprediction,
    is_value, lemma_extends_at, misprediction_at, spec_decode_difference, value_at, zigzag,
};

verus! {

/// The type that a zlib-like encoder gives to the next entry of the
/// run-length encoding, where `symbols` are the bit lengths still to be
/// encoded and `previous` is the bit length that the entry before began with.
pub open spec fn predict_code_type_spec(symbols: Seq<u8>, previous: Option<u8>) -> TreeCodeType {
    if symbols[0] == 0 {
        let run = byte_run(symbols, 0, 0, 11);
        if run >= 11 {
            TreeCodeType::ZeroLong
        } else if run >= 3 {
            TreeCodeType::ZeroShort
        } else {
            TreeCodeType::Code
        }
    } else {
        match previous {
            Some(code) => if byte_run(symbols, 0, code, symbols.len() as int) >= 3 {
                TreeCodeType::Repeat
            } else {
                TreeCodeType::Code
            },
            None => TreeCodeType::Code,
        }
    }
}

/// The data that a zlib-like encoder gives to the next entry of the
/// run-length encoding where the entry has the type `code_type`: the bit
/// length itself, or the length of the run up to the largest that the
/// type can hold.
pub open spec fn predict_code_data_spec(symbols: Seq<u8>, code_type: TreeCodeType) -> u8 {
    let len = symbols.len() as int;
    match code_type {
        TreeCodeType::Code => symbols[0],
        TreeCodeType::Repeat => (3 + byte_run(
            symbols,
            3,
            symbols[0],
            (if len < 6 {
                len
            } else {
                6
            }) - 3,
        )) as u8,
        TreeCodeType::ZeroShort => (3 + byte_run(
            symbols,
            3,
            0,
            (if len < 10 {
                len
            } else {
                10
            }) - 3,
        )) as u8,
        TreeCodeType::ZeroLong => (11 + byte_run(
            symbols,
            11,
            0,
            (if len < 138 {
                len
            } else {
                138
            }) - 11,
        )) as u8,
    }
}

/// `lengths` cut or filled with zeros to `n` entries.
pub open spec fn resized(lengths: Seq<u8>, n: int) -> Seq<u8> {
    Seq::new(
        n as nat,
        |i: int|
            if i < lengths.len() {
                lengths[i]
            } else {
                0u8
            },
    )
}

/// How often each symbol of the code-length alphabet occurs in the first
/// `n` entries of `lengths`.
pub open spec fn codetree_freq(lengths: Seq<(TreeCodeType, u8)>, n: int) -> Seq<u16>
    decreases n,
{
    if n <= 0 {
        Seq::new(19, |i: int| 0u16)
    } else {
        count_symbol(
            codetree_freq(lengths, n - 1),
            lengths[n - 1].0.symbol(lengths[n - 1].1),
        )
    }
}

/// The number at or below `n`, not below 4, of bit lengths of the
/// code-length alphabet that have to be transmitted in their order.
pub open spec fn strip_from(bit_lengths: Seq<u8>, n: int) -> int
    decreases n,
{
    if n > 4 && bit_lengths[tree_code_order()[n - 1] as int] == 0 {
        strip_from(bit_lengths, n - 1)
    } else {
        n
    }
}

/// The bit length with which the entry before entry `k` began.
pub open spec fn ld_previous(bit_lengths: Seq<u8>, targets: Seq<(TreeCodeType, u8)>, k: int) -> Option<
    u8,
> {
    if k <= 0 {
        None
    } else {
        Some(bit_lengths[rle_len(targets, k - 1)])
    }
}

/// The two events that describe entry `k` of `targets`, where
/// `bit_lengths` are the predicted bit lengths.
pub open spec fn ld_entry_events(bit_lengths: Seq<u8>, targets: Seq<(TreeCodeType, u8)>, k: int) -> Seq<
    CodecAction,
> {
    let symbols = bit_lengths.skip(rle_len(targets, k));
    let code_type = targets[k].0;
    let data = targets[k].1;
    seq![
        CodecAction::Correction(
            CodecCorrection::LDTypeCorrection,
            zigzag(
                code_type.spec_code() - predict_code_type_spec(
                    symbols,
                    ld_previous(bit_lengths, targets, k),
                ).spec_code(),
            ) as u32,
        ),
        CodecAction::Correction(
            if code_type == TreeCodeType::Code {
                CodecCorrection::LDBitLengthCorrection
            } else {
                CodecCorrection::RepeatCountCorrection
            },
            zigzag(data - predict_code_data_spec(symbols, code_type)) as u32,
        ),
    ]
}

/// The events that describe the first `n` entries of `targets`.
pub open spec fn ld_events(bit_lengths: Seq<u8>, targets: Seq<(TreeCodeType, u8)>, n: int) -> Seq<
    CodecAction,
>
    decreases n,
{
    if n <= 0 {
        Seq::empty()
    } else {
        ld_events(bit_lengths, targets, n - 1).add(ld_entry_events(bit_lengths, targets, n - 1))
    }
}

/// The events for a count of the header: whether it is as predicted, and
/// if not, what it is, less `base`, as a field of `bits` bits.
pub open spec fn count_events(
    kind: CodecMisprediction,
    predicted: int,
    actual: int,
    base: int,
    bits: u8,
) -> Seq<CodecAction> {
    if predicted != actual {
        seq![CodecAction::Misprediction(kind, true), CodecAction::Value((actual - base) as u16, bits)]
    } else {
        seq![CodecAction::Misprediction(kind, false)]
    }
}

/// The events for the first `n` bit lengths of the code-length alphabet
/// in their order, where `predicted` are the predicted ones.
pub open spec fn code_length_events(predicted: Seq<u8>, code_lengths: Seq<u8>, n: int) -> Seq<
    CodecAction,
>
    decreases n,
{
    if n <= 0 {
        Seq::empty()
    } else {
        code_length_events(predicted, code_lengths, n - 1).push(
            CodecAction::Correction(
                CodecCorrection::TreeCodeBitLengthCorrection,
                zigzag(
                    code_lengths[tree_code_order()[n - 1] as int] - predicted[tree_code_order()[n
                        - 1] as int],
                ) as u32,
            ),
        )
    }
}

/// The bit lengths of the code-length alphabet that are predicted for
/// the run-length encoding `lengths`.
pub open spec fn predicted_code_tree(huffcalc: HufftreeBitCalc, lengths: Seq<(TreeCodeType, u8)>) -> Seq<
    u8,
> {
    resized(
        spec_calc_bit_lengths(huffcalc, codetree_freq(lengths, lengths.len() as int), 7),
        19,
    )
}

/// The bit lengths of both alphabets that are predicted from the symbol
/// counts `freq`, with as many entries as the header has.
pub open spec fn predicted_bit_lengths(
    huffcalc: HufftreeBitCalc,
    freq: FrequencyModel,
    num_literals: int,
    num_dist: int,
) -> Seq<u8> {
    resized(spec_calc_bit_lengths(huffcalc, freq.literal_codes, 15), num_literals).add(
        resized(spec_calc_bit_lengths(huffcalc, freq.distance_codes, 15), num_dist),
    )
}

/// The events that describe `header` where the symbols of the block occur as `freq` counts.
pub open spec fn tree_events(header: HeaderModel, freq: FrequencyModel, huffcalc: HufftreeBitCalc) -> Seq<
    CodecAction,
> {
    let literals = spec_calc_bit_lengths(huffcalc, freq.literal_codes, 15);
    let distances = spec_calc_bit_lengths(huffcalc, freq.distance_codes, 15);
    let code_tree = predicted_code_tree(huffcalc, header.lengths);
    count_events(
        CodecMisprediction::LiteralCountMisprediction,
        literals.len() as int,
        header.num_literals as int,
        257,
        5,
    ).add(
        count_events(
            CodecMisprediction::DistanceCountMisprediction,
            distances.len() as int,
            header.num_dist as int,
            1,
            5,
        ),
    ).add(
        ld_events(
            predicted_bit_lengths(
                huffcalc,
                freq,
                header.num_literals as int,
                header.num_dist as int,
            ),
            header.lengths,
            header.lengths.len() as int,
        ),
    ).add(
        count_events(
            CodecMisprediction::TreeCodeCountMisprediction,
            strip_from(code_tree, 19),
            header.num_code_lengths as int,
            4,
            4,
        ),
    ).add(code_length_events(code_tree, header.code_lengths, header.num_code_lengths as int))
}

/// A run-length encoding that was rebuilt from events, and the place of
/// the first event after it.
pub struct DecodedLengths {
    pub lengths: Seq<(TreeCodeType, u8)>,
    pub end: int,
}

/// The kind of the correction that carries the second part of an entry.
pub open spec fn data_correction(code_type: TreeCodeType) -> CodecCorrection {
    if code_type != TreeCodeType::Code {
        CodecCorrection::RepeatCountCorrection
    } else {
        CodecCorrection::LDBitLengthCorrection
    }
}

/// The run-length encoding that the events from place `at` on make of
/// the predicted bit lengths from place `pos` on, added to `lengths`.
/// Each entry is read from a correction of its type and a correction of
/// its second part.
pub open spec fn decode_ld(
    bit_lengths: Seq<u8>,
    pos: int,
    previous: Option<u8>,
    events: Seq<CodecAction>,
    at: int,
    lengths: Seq<(TreeCodeType, u8)>,
) -> Result<DecodedLengths, PreflateError>
    decreases bit_lengths.len() - pos,
{
    if pos < 0 || pos >= bit_lengths.len() {
        Ok(DecodedLengths { lengths, end: at })
    } else {
        let symbols = bit_lengths.skip(pos);
        let predicted = predict_code_type_spec(symbols, previous);
        match TreeCodeType::spec_from_code(
            spec_decode_difference(predicted.spec_code(), correction_at(events, at)),
        ) {
            _ if !is_correction(events, at, CodecCorrection::LDTypeCorrection) => Err(
                PreflateError::EventsOutOfStep,
            ),
            None => Err(PreflateError::InvalidTreeCodeType),
            Some(code_type) => {
                let data = spec_decode_difference(
                    predict_code_data_spec(symbols, code_type) as u32,
                    correction_at(events, at + 1),
                );
                if !is_correction(events, at + 1, data_correction(code_type)) {
                    Err(PreflateError::EventsOutOfStep)
                } else if !code_type.accepts(data as int) {
                    Err(PreflateError::InvalidHeader)
                } else if code_type.advance(data as int) > bit_lengths.len() - pos {
                    Err(PreflateError::RleLengthMismatch)
                } else {
                    decode_ld(
                        bit_lengths,
                        pos + code_type.advance(data as int),
                        Some(bit_lengths[pos]),
                        events,
                        at + 2,
                        lengths.push((code_type, data as u8)),
                    )
                }
            },
        }
    }
}

/// Whether the events from place `at` on are those of a count of the
/// header: a misprediction of the kind `kind` and, where it says that the
/// prediction was wrong, a raw value of `bits` bits.
pub open spec fn count_in_step(
    kind: CodecMisprediction,
    bits: u8,
    events: Seq<CodecAction>,
    at: int,
) -> bool {
    &&& is_misprediction(events, at, kind)
    &&& misprediction_at(events, at) ==> is_value(events, at + 1, bits)
}

/// A count of the header as the events from place `at` on give it.
pub open spec fn decode_count(predicted: int, base: int, events: Seq<CodecAction>, at: int) -> int {
    if misprediction_at(events, at) {
        value_at(events, at + 1) + base
    } else {
        predicted
    }
}

/// Number of events that a count of the header takes.
pub open spec fn count_used(events: Seq<CodecAction>, at: int) -> int {
    if misprediction_at(events, at) {
        2
    } else {
        1
    }
}

/// The bit lengths of the code-length alphabet after the first `n` in
/// their order were rebuilt from the events from place `at` on, each of
/// them a correction of a bit length of that alphabet.
pub open spec fn decode_code_lengths(predicted: Seq<u8>, events: Seq<CodecAction>, at: int, n: int) -> Result<
    Seq<u8>,
    PreflateError,
>
    decreases n,
{
    if n <= 0 {
        Ok(Seq::new(19, |i: int| 0u8))
    } else {
        match decode_code_lengths(predicted, events, at, n - 1) {
            Err(e) => Err(e),
            Ok(code_lengths) => {
                let symbol = tree_code_order()[n - 1] as int;
                let v = spec_decode_difference(
                    predicted[symbol] as u32,
                    correction_at(events, at + n - 1),
                );
                if !is_correction(
                    events,
                    at + n - 1,
                    CodecCorrection::TreeCodeBitLengthCorrection,
                ) {
                    Err(PreflateError::EventsOutOfStep)
                } else if v > 7 {
                    Err(PreflateError::InvalidHeader)
                } else {
                    Ok(code_lengths.update(symbol, v as u8))
                }
            },
        }
    }
}

/// The bit lengths of the code-length alphabet that were rebuilt from
/// events, their number, and the place of the first event after them.
pub struct DecodedCodeTree {
    pub code_lengths: Seq<u8>,
    pub num_code_lengths: int,
    pub end: int,
}

/// The bit lengths of the code-length alphabet that the events from
/// place `at` on describe where the run-length encoding is `lengths`:
/// their count, of 4 bits where it is a raw value, and then as many
/// corrections.
#[verifier::opaque]
pub open spec fn decode_code_tree(
    huffcalc: HufftreeBitCalc,
    lengths: Seq<(TreeCodeType, u8)>,
    events: Seq<CodecAction>,
    at: int,
) -> Result<DecodedCodeTree, PreflateError> {
    let code_tree = predicted_code_tree(huffcalc, lengths);
    let num_code_lengths = decode_count(strip_from(code_tree, 19), 4, events, at);
    let at_cl = at + count_used(events, at);
    if !count_in_step(CodecMisprediction::TreeCodeCountMisprediction, 4, events, at) {
        Err(PreflateError::EventsOutOfStep)
    } else if !(4 <= num_code_lengths <= 19) {
        Err(PreflateError::InvalidHeader)
    } else {
        match decode_code_lengths(code_tree, events, at_cl, num_code_lengths) {
            Err(e) => Err(e),
            Ok(code_lengths) => Ok(
                DecodedCodeTree { code_lengths, num_code_lengths, end: at_cl + num_code_lengths },
            ),
        }
    }
}

/// A header that was rebuilt from events, and the place of the first event after it.
pub struct DecodedHeader {
    pub header: HeaderModel,
    pub end: int,
}

/// The header that the events from place `at` on describe where the
/// symbols of the block occur as `freq` counts: the two counts of
/// symbols, each of 5 bits where it is a raw value, the run-length
/// encoding, the count of the code-length alphabet, of 4 bits, and its bit
/// lengths.
pub open spec fn decode_header(
    freq: FrequencyModel,
    huffcalc: HufftreeBitCalc,
    events: Seq<CodecAction>,
    at: int,
) -> Result<DecodedHeader, PreflateError> {
    let literals = spec_calc_bit_lengths(huffcalc, freq.literal_codes, 15);
    let distances = spec_calc_bit_lengths(huffcalc, freq.distance_codes, 15);
    let num_literals = decode_count(literals.len() as int, 257, events, at);
    let at_dist = at + count_used(events, at);
    let num_dist = decode_count(distances.len() as int, 1, events, at_dist);
    let at_ld = at_dist + count_used(events, at_dist);
    if !count_in_step(CodecMisprediction::LiteralCountMisprediction, 5, events, at) {
        Err(PreflateError::EventsOutOfStep)
    } else if !(257 <= num_literals <= 286) {
        Err(PreflateError::InvalidHeader)
    } else if !count_in_step(CodecMisprediction::DistanceCountMisprediction, 5, events, at_dist) {
        Err(PreflateError::EventsOutOfStep)
    } else if !(1 <= num_dist <= 30) {
        Err(PreflateError::InvalidHeader)
    } else {
        match decode_ld(
            predicted_bit_lengths(huffcalc, freq, num_literals, num_dist),
            0,
            None,
            events,
            at_ld,
            Seq::empty(),
        ) {
            Err(e) => Err(e),
            Ok(ld) => match decode_code_tree(huffcalc, ld.lengths, events, ld.end) {
                Err(e) => Err(e),
                Ok(tree) => Ok(
                    DecodedHeader {
                        header: HeaderModel {
                            lengths: ld.lengths,
                            code_lengths: tree.code_lengths,
                            num_literals: num_literals as usize,
                            num_dist: num_dist as usize,
                            num_code_lengths: tree.num_code_lengths as usize,
                        },
                        end: tree.end,
                    },
                ),
            },
        }
    }
}

/// The type that a zlib-like encoder gives to the next entry of the
/// run-length encoding of `sym_bit_len`.
pub fn predict_code_type(sym_bit_len: &[u8], previous_code: Option<u8>) -> (r: TreeCodeType)
    requires
        sym_bit_len@.len() >= 1,
    ensures
        r == predict_code_type_spec(sym_bit_len@, previous_code),
{
    let code: u8 = sym_bit_len[0];
    let len: usize = sym_bit_len.len();
    if code == 0 {
        let mut curlen: usize = 1;
        let max_cur_len: usize = if len < 11 {
            len
        } else {
            11
        };
        while curlen < max_cur_len && sym_bit_len[curlen] == 0
            invariant
                1 <= curlen <= max_cur_len,
                max_cur_len <= 11,
                max_cur_len <= len,
                len == sym_bit_len@.len(),
                max_cur_len == 11 || max_cur_len == len,
                byte_run(sym_bit_len@, 0, 0, 11) == curlen + byte_run(
                    sym_bit_len@,
                    curlen as int,
                    0,
                    11 - curlen,
                ),
            decreases max_cur_len - curlen,
        {
            curlen += 1;
        }
        if curlen >= 11 {
            TreeCodeType::ZeroLong
        } else if curlen >= 3 {
            TreeCodeType::ZeroShort
        } else {
            TreeCodeType::Code
        }
    } else if let Some(code) = previous_code {
        let mut curlen: usize = 0;
        while curlen < len && sym_bit_len[curlen] == code
            invariant
                curlen <= len,
                len == sym_bit_len@.len(),
                byte_run(sym_bit_len@, 0, code, len as int) == curlen + byte_run(
                    sym_bit_len@,
                    curlen as int,
                    code,
                    len - curlen,
                ),
            decreases len - curlen,
        {
            curlen += 1;
        }
        if curlen >= 3 {
            TreeCodeType::Repeat
        } else {
            TreeCodeType::Code
        }
    } else {
        TreeCodeType::Code
    }
}

/// Counts the run of `code` in `sym_bit_len` from place `from` on up to
/// the place `to` or the end.
fn run_length(sym_bit_len: &[u8], code: u8, from: usize, to: usize) -> (r: usize)
    requires
        from <= to <= 138,
    ensures
        r == from + byte_run(
            sym_bit_len@,
            from as int,
            code,
            (if sym_bit_len@.len() < to {
                sym_bit_len@.len() as int
            } else {
                to as int
            }) - from,
        ),
        from <= r <= to,
{
    let len: usize = sym_bit_len.len();
    let max_cur_len: usize = if len < to {
        len
    } else {
        to
    };
    let mut curlen: usize = from;
    while curlen < max_cur_len && sym_bit_len[curlen] == code
        invariant
            from <= curlen,
            curlen <= max_cur_len || max_cur_len < from,
            max_cur_len <= to,
            max_cur_len <= len,
            len == sym_bit_len@.len(),
            byte_run(sym_bit_len@, from as int, code, max_cur_len - from) == curlen - from
                + byte_run(sym_bit_len@, curlen as int, code, max_cur_len - curlen),
        decreases max_cur_len - curlen,
    {
        curlen += 1;
    }
    curlen
}

/// The data that a zlib-like encoder gives to the next entry of the
/// run-length encoding of `sym_bit_len` where the entry has the type `code_type`.
pub fn predict_code_data(sym_bit_len: &[u8], code_type: TreeCodeType) -> (r: u8)
    requires
        sym_bit_len@.len() >= 1,
    ensures
        r == predict_code_data_spec(sym_bit_len@, code_type),
{
    let code: u8 = sym_bit_len[0];
    match code_type {
        TreeCodeType::Code => code,
        TreeCodeType::Repeat => run_length(sym_bit_len, code, 3, 6) as u8,
        TreeCodeType::ZeroShort => run_length(sym_bit_len, 0, 3, 10) as u8,
        TreeCodeType::ZeroLong => run_length(sym_bit_len, 0, 11, 138) as u8,
    }
}

/// Counts how often each symbol of the code-length alphabet occurs in
/// `codes`: the counts from which the code for the header itself is built.
pub fn calc_codetree_freq(codes: &[(TreeCodeType, u8)]) -> (r: [u16; 19])
    requires
        rle_entries_wf(codes@),
    ensures
        r@ == codetree_freq(codes@, codes@.len() as int),
{
    let mut bl_freqs: [u16; 19] = [0u16; 19];
    assert(bl_freqs@ =~= Seq::new(19, |i: int| 0u16));
    let mut i: usize = 0;
    while i < codes.len()
        invariant
            i <= codes@.len(),
            rle_entries_wf(codes@),
            bl_freqs@ == codetree_freq(codes@, i as int),
        decreases codes@.len() - i,
    {
        assert(codes@[i as int].0.accepts(codes@[i as int].1 as int));
        let symbol: usize = match codes[i].0 {
            TreeCodeType::Code => codes[i].1 as usize,
            TreeCodeType::Repeat => 16,
            TreeCodeType::ZeroShort => 17,
            TreeCodeType::ZeroLong => 18,
        };
        bl_freqs[symbol] = bl_freqs[symbol].wrapping_add(1);
        i += 1;
    }
    bl_freqs
}

/// The number of bit lengths of the code-length alphabet that have to be
/// transmitted: the bit lengths are sent in an order that puts the rare
/// ones last, and zeros at the end are left out, but never more than all
/// but four.
pub fn calc_tc_lengths_without_trailing_zeros(bit_lengths: &[u8]) -> (r: usize)
    requires
        bit_lengths@.len() == 19,
    ensures
        r == strip_from(bit_lengths@, 19),
        4 <= r <= 19,
        forall|i: int| r <= i < 19 ==> bit_lengths@[#[trigger] tree_code_order()[i] as int] == 0,
        r > 4 ==> bit_lengths@[tree_code_order()[r - 1] as int] != 0,
{
    let mut len: usize = 19;
    while len > 4 && bit_lengths[tree_code_at(len - 1)] == 0
        invariant
            4 <= len <= 19,
            bit_lengths@.len() == 19,
            strip_from(bit_lengths@, 19) == strip_from(bit_lengths@, len as int),
            forall|i: int|
                len <= i < 19 ==> bit_lengths@[#[trigger] tree_code_order()[i] as int] == 0,
        decreases len,
    {
        len -= 1;
    }
    len
}

/// `lengths` cut or filled with zeros to `n` entries.
fn resize_lengths(lengths: &Vec<u8>, n: usize) -> (r: Vec<u8>)
    ensures
        r@ == resized(lengths@, n as int),
{
    let mut r: Vec<u8> = Vec::new();
    let mut i: usize = 0;
    while i < n
        invariant
            i <= n,
            r@ == resized(lengths@, i as int),
        decreases n - i,
    {
        let v: u8 = if i < lengths.len() {
            lengths[i]
        } else {
            0
        };
        r.push(v);
        assert(r@ =~= resized(lengths@, i + 1));
        i += 1;
    }
    r
}

/// Describes the run-length encoding `actual_target_codes` to `encoder`
/// as the corrections of what is predicted for the bit lengths
/// `predicted_bit_len`. An encoding that stands for more or fewer bit
/// lengths than are predicted is an error, and nothing is described.
pub fn predict_ld_trees<D: PredictionEncoder>(
    encoder: &mut D,
    predicted_bit_len: &[u8],
    actual_target_codes: &[(TreeCodeType, u8)],
) -> (r: Result<(), PreflateError>)
    requires
        rle_entries_wf(actual_target_codes@),
    ensures
        match r {
            Ok(()) => {
                &&& rle_len(actual_target_codes@, actual_target_codes@.len() as int)
                    == predicted_bit_len@.len()
                &&& final(encoder).events() == old(encoder).events().add(
                    ld_events(
                        predicted_bit_len@,
                        actual_target_codes@,
                        actual_target_codes@.len() as int,
                    ),
                )
            },
            Err(e) => {
                &&& e == PreflateError::RleLengthMismatch
                &&& rle_len(actual_target_codes@, actual_target_codes@.len() as int)
                    != predicted_bit_len@.len()
                &&& final(encoder).events() == old(encoder).events()
            },
        },
{
    let n: usize = actual_target_codes.len();
    let len: usize = predicted_bit_len.len();
    if !rle_covers(actual_target_codes, len) {
        return Err(PreflateError::RleLengthMismatch);
    }
    let mut pos: usize = 0;
    let mut prev_code: Option<u8> = None;
    let mut i: usize = 0;
    assert(encoder.events() =~= old(encoder).events().add(
        ld_events(predicted_bit_len@, actual_target_codes@, 0),
    ));
    while i < n
        invariant
            i <= n,
            n == actual_target_codes@.len(),
            len == predicted_bit_len@.len(),
            rle_entries_wf(actual_target_codes@),
            rle_len(actual_target_codes@, n as int) == len,
            pos == rle_len(actual_target_codes@, i as int),
            prev_code == ld_previous(predicted_bit_len@, actual_target_codes@, i as int),
            encoder.events() == old(encoder).events().add(
                ld_events(predicted_bit_len@, actual_target_codes@, i as int),
            ),
        decreases n - i,
    {
        proof {
            lemma_rle_len_grows(actual_target_codes@, i as int, n as int);
            lemma_rle_len_grows(actual_target_codes@, i + 1, n as int);
            assert(actual_target_codes@[i as int].0.accepts(actual_target_codes@[i as int].1 as int));
        }
        let target_tree_code_type: TreeCodeType = actual_target_codes[i].0;
        let target_tree_code_data: u8 = actual_target_codes[i].1;
        let symbols: &[u8] = &predicted_bit_len[pos..len];
        assert(symbols@ =~= predicted_bit_len@.skip(pos as int));
        let predicted_tree_code_type: TreeCodeType = predict_code_type(symbols, prev_code);
        prev_code = Some(symbols[0]);
        let ghost before = encoder.events();
        encoder.encode_correction(
            CodecCorrection::LDTypeCorrection,
            encode_difference(predicted_tree_code_type.code(), target_tree_code_type.code()),
        );
        let predicted_tree_code_data: u8 = predict_code_data(symbols, target_tree_code_type);
        if target_tree_code_type != TreeCodeType::Code {
            encoder.encode_correction(
                CodecCorrection::RepeatCountCorrection,
                encode_difference(predicted_tree_code_data as u32, target_tree_code_data as u32),
            );
        } else {
            encoder.encode_correction(
                CodecCorrection::LDBitLengthCorrection,
                encode_difference(predicted_tree_code_data as u32, target_tree_code_data as u32),
            );
        }
        if target_tree_code_type == TreeCodeType::Code {
            pos += 1;
        } else {
            pos += target_tree_code_data as usize;
        }
        proof {
            let entry = ld_entry_events(predicted_bit_len@, actual_target_codes@, i as int);
            assert(encoder.events() =~= before.add(entry));
            assert(before.add(entry) =~= old(encoder).events().add(
                ld_events(predicted_bit_len@, actual_target_codes@, i + 1),
            ));
        }
        i += 1;
    }
    Ok(())
}

/// Rebuilds a run-length encoding of the bit lengths `sym_bit_len` from
/// the events of `decoder`.
pub fn reconstruct_ld_trees<D: PredictionDecoder>(decoder: &mut D, sym_bit_len: &[u8]) -> (r: Result<
    Vec<(TreeCodeType, u8)>,
    PreflateError,
>)
    ensures
        extends(final(decoder).consumed(), old(decoder).consumed()),
        final(decoder).script() == old(decoder).script(),
        old(decoder).inv() ==> final(decoder).inv(),
        match r {
            Ok(lengths) => {
                &&& rle_entries_wf(lengths@)
                &&& rle_len(lengths@, lengths@.len() as int) == sym_bit_len@.len()
                &&& forall|ev2: Seq<CodecAction>|
                    extends(ev2, final(decoder).consumed()) ==> (#[trigger] decode_ld(
                        sym_bit_len@,
                        0,
                        None,
                        ev2,
                        old(decoder).consumed().len() as int,
                        Seq::empty(),
                    )) == Ok::<DecodedLengths, PreflateError>(
                        DecodedLengths {
                            lengths: lengths@,
                            end: final(decoder).consumed().len() as int,
                        },
                    )
            },
            Err(e) => forall|ev2: Seq<CodecAction>|
                extends(ev2, final(decoder).consumed()) ==> (#[trigger] decode_ld(
                    sym_bit_len@,
                    0,
                    None,
                    ev2,
                    old(decoder).consumed().len() as int,
                    Seq::empty(),
                )) == Err::<DecodedLengths, PreflateError>(e),
        },
        !(r matches Err(PreflateError::EventsOutOfStep)),
{
    let len: usize = sym_bit_len.len();
    let ghost at = old(decoder).consumed().len() as int;
    let mut pos: usize = 0;
    let mut prev_code: Option<u8> = None;
    let mut result: Vec<(TreeCodeType, u8)> = Vec::new();
    while pos < len
        invariant
            pos <= len,
            len == sym_bit_len@.len(),
            at == old(decoder).consumed().len(),
            extends(decoder.consumed(), old(decoder).consumed()),
            decoder.script() == old(decoder).script(),
            old(decoder).inv() ==> decoder.inv(),
            rle_entries_wf(result@),
            rle_len(result@, result@.len() as int) == pos,
            forall|ev2: Seq<CodecAction>|
                extends(ev2, decoder.consumed()) ==> (#[trigger] decode_ld(
                    sym_bit_len@,
                    0,
                    None,
                    ev2,
                    at,
                    Seq::empty(),
                )) == decode_ld(
                    sym_bit_len@,
                    pos as int,
                    prev_code,
                    ev2,
                    decoder.consumed().len() as int,
                    result@,
                ),
        decreases len - pos,
    {
        let ghost before = decoder.consumed();
        let ghost here = before.len() as int;
        let ghost lengths_before = result@;
        let ghost prev_before = prev_code;
        let symbols: &[u8] = &sym_bit_len[pos..len];
        assert(symbols@ =~= sym_bit_len@.skip(pos as int));
        let predicted_tree_code_type: TreeCodeType = predict_code_type(symbols, prev_code);
        prev_code = Some(symbols[0]);
        let tree_code_type_code: u32 = decode_difference(
            predicted_tree_code_type.code(),
            decoder.decode_correction(CodecCorrection::LDTypeCorrection),
        );
        let tree_code_type: TreeCodeType = match TreeCodeType::from_code(tree_code_type_code) {
            Some(t) => t,
            None => {
                proof {
                    assert forall|ev2: Seq<CodecAction>|
                        extends(ev2, decoder.consumed()) implies (#[trigger] decode_ld(
                        sym_bit_len@,
                        0,
                        None,
                        ev2,
                        at,
                        Seq::empty(),
                    )) == Err::<DecodedLengths, PreflateError>(
                        PreflateError::InvalidTreeCodeType,
                    ) by {
                        assert(extends(ev2, before));
                        lemma_extends_at(ev2, decoder.consumed(), here);
                    }
                }
                return Err(PreflateError::InvalidTreeCodeType);
            },
        };
        let predicted_tree_code_data: u8 = predict_code_data(symbols, tree_code_type);
        let correction: u32 = if tree_code_type != TreeCodeType::Code {
            decoder.decode_correction(CodecCorrection::RepeatCountCorrection)
        } else {
            decoder.decode_correction(CodecCorrection::LDBitLengthCorrection)
        };
        let data: u32 = decode_difference(predicted_tree_code_data as u32, correction);
        let in_range: bool = match tree_code_type {
            TreeCodeType::Code => data <= 15,
            TreeCodeType::Repeat => 3 <= data && data <= 6,
            TreeCodeType::ZeroShort => 3 <= data && data <= 10,
            TreeCodeType::ZeroLong => 11 <= data && data <= 138,
        };
        if !in_range {
            proof {
                assert forall|ev2: Seq<CodecAction>|
                    extends(ev2, decoder.consumed()) implies (#[trigger] decode_ld(
                    sym_bit_len@,
                    0,
                    None,
                    ev2,
                    at,
                    Seq::empty(),
                )) == Err::<DecodedLengths, PreflateError>(PreflateError::InvalidHeader) by {
                    assert(extends(ev2, before));
                    lemma_extends_at(ev2, decoder.consumed(), here);
                    lemma_extends_at(ev2, decoder.consumed(), here + 1);
                }
            }
            return Err(PreflateError::InvalidHeader);
        }
        let step: usize = if tree_code_type == TreeCodeType::Code {
            1
        } else {
            data as usize
        };
        if step > len - pos {
            proof {
                assert forall|ev2: Seq<CodecAction>|
                    extends(ev2, decoder.consumed()) implies (#[trigger] decode_ld(
                    sym_bit_len@,
                    0,
                    None,
                    ev2,
                    at,
                    Seq::empty(),
                )) == Err::<DecodedLengths, PreflateError>(PreflateError::RleLengthMismatch) by {
                    assert(extends(ev2, before));
                    lemma_extends_at(ev2, decoder.consumed(), here);
                    lemma_extends_at(ev2, decoder.consumed(), here + 1);
                }
            }
            return Err(PreflateError::RleLengthMismatch);
        }
        result.push((tree_code_type, data as u8));
        pos += step;
        proof {
            assert forall|ev2: Seq<CodecAction>| extends(ev2, decoder.consumed()) implies (
            #[trigger] decode_ld(sym_bit_len@, 0, None, ev2, at, Seq::empty())) == decode_ld(
                sym_bit_len@,
                pos as int,
                prev_code,
                ev2,
                decoder.consumed().len() as int,
                result@,
            ) by {
                assert(extends(ev2, before));
                lemma_extends_at(ev2, decoder.consumed(), here);
                lemma_extends_at(ev2, decoder.consumed(), here + 1);
            }
            assert(result@.drop_last() == lengths_before);
            assert forall|i: int| 0 <= i < result@.len() implies (#[trigger] result@[i]).0.accepts(
                result@[i].1 as int,
            ) by {
                if i < lengths_before.len() {
                    assert(result@[i] == lengths_before[i]);
                }
            }
            lemma_rle_len_prefix(result@, lengths_before, lengths_before.len() as int);
        }
    }
    Ok(result)
}

/// The number of bit lengths that the first entries stand for does not
/// depend on the entries after them.
pub proof fn lemma_rle_len_prefix(
    longer: Seq<(TreeCodeType, u8)>,
    lengths: Seq<(TreeCodeType, u8)>,
    n: int,
)
    requires
        0 <= n <= lengths.len() <= longer.len(),
        forall|i: int| 0 <= i < lengths.len() ==> longer[i] == lengths[i],
    ensures
        rle_len(longer, n) == rle_len(lengths, n),
    decreases n,
{
    if n > 0 {
        lemma_rle_len_prefix(longer, lengths, n - 1);
    }
}

/// Sends a count of the header: whether it is as predicted, and if not,
/// what it is, less `base`, as a field of `bits` bits.
fn encode_count<D: PredictionEncoder>(
    encoder: &mut D,
    kind: CodecMisprediction,
    predicted: usize,
    actual: usize,
    base: usize,
    bits: u8,
)
    requires
        base <= actual <= base + 0xffff,
    ensures
        final(encoder).events() == old(encoder).events().add(
            count_events(kind, predicted as int, actual as int, base as int, bits),
        ),
{
    if predicted != actual {
        encoder.encode_misprediction(kind, true);
        encoder.encode_value((actual - base) as u16, bits);
    } else {
        encoder.encode_misprediction(kind, false);
    }
    assert(encoder.events() =~= old(encoder).events().add(
        count_events(kind, predicted as int, actual as int, base as int, bits),
    ));
}

/// Describes the header `huffman_encoding` of a block to `encoder` as
/// the corrections of the header that is predicted from the symbol
/// counts `freq` of the block. A header whose run-length encoding does
/// not stand for exactly the bit lengths of both alphabets is an error,
/// and nothing is described.
pub fn predict_tree_for_block<D: PredictionEncoder>(
    huffman_encoding: &HuffmanOriginalEncoding,
    freq: &TokenFrequency,
    encoder: &mut D,
    huffcalc: HufftreeBitCalc,
) -> (r: Result<(), PreflateError>)
    requires
        huffman_encoding@.ranges_wf(),
    ensures
        match r {
            Ok(()) => {
                &&& huffman_encoding@.covers()
                &&& final(encoder).events() == old(encoder).events().add(
                    tree_events(huffman_encoding@, freq@, huffcalc),
                )
            },
            Err(e) => {
                &&& e == PreflateError::RleLengthMismatch
                &&& !huffman_encoding@.covers()
                &&& final(encoder).events() == old(encoder).events()
            },
        },
{
    if !rle_covers(
        huffman_encoding.lengths.as_slice(),
        huffman_encoding.num_literals + huffman_encoding.num_dist,
    ) {
        return Err(PreflateError::RleLengthMismatch);
    }
    encoder.encode_verify_state("tree", 0);
    let ghost header = huffman_encoding@;
    // The bit lengths of the literals and lengths, then those of the distances.
    let literals: Vec<u8> = calc_bit_lengths(huffcalc, freq.literal_codes.as_slice(), 15);
    encode_count(
        encoder,
        CodecMisprediction::LiteralCountMisprediction,
        literals.len(),
        huffman_encoding.num_literals,
        257,
        5,
    );
    let mut bit_lengths: Vec<u8> = resize_lengths(&literals, huffman_encoding.num_literals);
    let distances: Vec<u8> = calc_bit_lengths(huffcalc, freq.distance_codes.as_slice(), 15);
    encode_count(
        encoder,
        CodecMisprediction::DistanceCountMisprediction,
        distances.len(),
        huffman_encoding.num_dist,
        1,
        5,
    );
    let mut distance_code_lengths: Vec<u8> = resize_lengths(&distances, huffman_encoding.num_dist);
    bit_lengths.append(&mut distance_code_lengths);
    predict_ld_trees(encoder, bit_lengths.as_slice(), huffman_encoding.lengths.as_slice())?;
    // The header itself is encoded with a Huffman code, whose bit lengths
    // are predicted from the run-length encoding.
    let codetree_freq: [u16; 19] = calc_codetree_freq(huffman_encoding.lengths.as_slice());
    let predicted: Vec<u8> = calc_bit_lengths(huffcalc, codetree_freq.as_slice(), 7);
    let tc_code_tree: Vec<u8> = resize_lengths(&predicted, 19);
    let tc_code_tree_len: usize = calc_tc_lengths_without_trailing_zeros(tc_code_tree.as_slice());
    encode_count(
        encoder,
        CodecMisprediction::TreeCodeCountMisprediction,
        tc_code_tree_len,
        huffman_encoding.num_code_lengths,
        4,
        4,
    );
    let ghost head = encoder.events();
    let n: usize = huffman_encoding.num_code_lengths;
    let mut i: usize = 0;
    assert(encoder.events() =~= head.add(code_length_events(tc_code_tree@, header.code_lengths, 0)));
    while i < n
        invariant
            i <= n <= 19,
            tc_code_tree@.len() == 19,
            header == huffman_encoding@,
            header.code_lengths.len() == 19,
            encoder.events() == head.add(
                code_length_events(tc_code_tree@, header.code_lengths, i as int),
            ),
        decreases n - i,
    {
        let symbol: usize = tree_code_at(i);
        let predicted_bl: u8 = tc_code_tree[symbol];
        encoder.encode_correction(
            CodecCorrection::TreeCodeBitLengthCorrection,
            encode_difference(predicted_bl as u32, huffman_encoding.code_lengths[symbol] as u32),
        );
        assert(encoder.events() =~= head.add(
            code_length_events(tc_code_tree@, header.code_lengths, i + 1),
        ));
        i += 1;
    }
    assert(encoder.events() =~= old(encoder).events().add(
        tree_events(huffman_encoding@, freq@, huffcalc),
    ));
    Ok(())
}

/// An error among the first `k` bit lengths is the error of every longer run.
pub proof fn lemma_decode_code_lengths_err(
    predicted: Seq<u8>,
    events: Seq<CodecAction>,
    at: int,
    k: int,
    n: int,
)
    requires
        k <= n,
        decode_code_lengths(predicted, events, at, k) is Err,
    ensures
        decode_code_lengths(predicted, events, at, n) == decode_code_lengths(
            predicted,
            events,
            at,
            k,
        ),
    decreases n - k,
{
    if k < n {
        lemma_decode_code_lengths_err(predicted, events, at, k, n - 1);
    }
}

/// The first `n` bit lengths depend on the events up to theirs only.
pub proof fn lemma_decode_code_lengths_extends(
    predicted: Seq<u8>,
    events: Seq<CodecAction>,
    longer: Seq<CodecAction>,
    at: int,
    n: int,
)
    requires
        extends(longer, events),
        0 <= at,
        at + n <= events.len(),
    ensures
        decode_code_lengths(predicted, longer, at, n) == decode_code_lengths(
            predicted,
            events,
            at,
            n,
        ),
    decreases n,
{
    if n > 0 {
        lemma_decode_code_lengths_extends(predicted, events, longer, at, n - 1);
        lemma_extends_at(longer, events, at + n - 1);
    }
}

/// Reads a count of the header: the predicted one, or the one that the
/// stream holds in its place.
fn decode_count_value<D: PredictionDecoder>(
    codec: &mut D,
    kind: CodecMisprediction,
    predicted: usize,
    base: usize,
    bits: u8,
) -> (r: usize)
    requires
        predicted <= 0xffff,
        base <= 0xffff,
    ensures
        extends(final(codec).consumed(), old(codec).consumed()),
        final(codec).script() == old(codec).script(),
        old(codec).inv() ==> final(codec).inv(),
        final(codec).consumed().len() == old(codec).consumed().len() + count_used(
            final(codec).consumed(),
            old(codec).consumed().len() as int,
        ),
        r == decode_count(
            predicted as int,
            base as int,
            final(codec).consumed(),
            old(codec).consumed().len() as int,
        ),
        count_in_step(kind, bits, final(codec).consumed(), old(codec).consumed().len() as int),
{
    if codec.decode_misprediction(kind) {
        codec.decode_value(bits) as usize + base
    } else {
        predicted
    }
}

/// Rebuilds the first `n` bit lengths of the code-length alphabet, in
/// their order, from the events of `codec` and the predicted ones.
fn recreate_code_lengths<D: PredictionDecoder>(codec: &mut D, predicted: &[u8], n: usize) -> (r:
    Result<[u8; 19], PreflateError>)
    requires
        predicted@.len() == 19,
        n <= 19,
    ensures
        extends(final(codec).consumed(), old(codec).consumed()),
        final(codec).script() == old(codec).script(),
        old(codec).inv() ==> final(codec).inv(),
        forall|ev2: Seq<CodecAction>|
            extends(ev2, final(codec).consumed()) ==> (#[trigger] decode_code_lengths(
                predicted@,
                ev2,
                old(codec).consumed().len() as int,
                n as int,
            )) == (match r {
                Ok(code_lengths) => Ok::<Seq<u8>, PreflateError>(code_lengths@),
                Err(e) => Err::<Seq<u8>, PreflateError>(e),
            }),
        r matches Ok(code_lengths) ==> {
            &&& final(codec).consumed().len() == old(codec).consumed().len() + n
            &&& forall|j: int| 0 <= j < 19 ==> #[trigger] code_lengths@[j] <= 7
            &&& forall|j: int|
                n <= j < 19 ==> code_lengths@[#[trigger] tree_code_order()[j] as int] == 0
        },
        !(r matches Err(PreflateError::EventsOutOfStep)),
{
    let ghost at = old(codec).consumed().len() as int;
    let mut code_lengths: [u8; 19] = [0u8; 19];
    assert(code_lengths@ =~= Seq::new(19, |i: int| 0u8));
    proof {
        lemma_tree_code_order_distinct();
    }
    let mut i: usize = 0;
    while i < n
        invariant
            i <= n <= 19,
            predicted@.len() == 19,
            at == old(codec).consumed().len(),
            extends(codec.consumed(), old(codec).consumed()),
            codec.script() == old(codec).script(),
            old(codec).inv() ==> codec.inv(),
            codec.consumed().len() == at + i,
            forall|j: int| 0 <= j < 19 ==> #[trigger] code_lengths@[j] <= 7,
            forall|j: int|
                i <= j < 19 ==> code_lengths@[#[trigger] tree_code_order()[j] as int] == 0,
            forall|a: int, b: int|
                0 <= a < 19 && 0 <= b < 19 && a != b ==> #[trigger] tree_code_order()[a]
                    != #[trigger] tree_code_order()[b],
            decode_code_lengths(predicted@, codec.consumed(), at, i as int) == Ok::<
                Seq<u8>,
                PreflateError,
            >(code_lengths@),
        decreases n - i,
    {
        let symbol: usize = tree_code_at(i);
        let ghost before = codec.consumed();
        let v: u32 = decode_difference(
            predicted[symbol] as u32,
            codec.decode_correction(CodecCorrection::TreeCodeBitLengthCorrection),
        );
        proof {
            lemma_decode_code_lengths_extends(predicted@, before, codec.consumed(), at, i as int);
        }
        if v > 7 {
            proof {
                let ev = codec.consumed();
                assert forall|ev2: Seq<CodecAction>| extends(ev2, ev) implies (
                #[trigger] decode_code_lengths(predicted@, ev2, at, n as int)) == Err::<
                    Seq<u8>,
                    PreflateError,
                >(PreflateError::InvalidHeader) by {
                    lemma_decode_code_lengths_extends(predicted@, ev, ev2, at, i + 1);
                    lemma_decode_code_lengths_err(predicted@, ev2, at, i + 1, n as int);
                }
            }
            return Err(PreflateError::InvalidHeader);
        }
        code_lengths[symbol] = v as u8;
        i += 1;
    }
    proof {
        let ev = codec.consumed();
        assert forall|ev2: Seq<CodecAction>| extends(ev2, ev) implies (
        #[trigger] decode_code_lengths(predicted@, ev2, at, n as int)) == Ok::<
            Seq<u8>,
            PreflateError,
        >(code_lengths@) by {
            lemma_decode_code_lengths_extends(predicted@, ev, ev2, at, n as int);
        }
    }
    Ok(code_lengths)
}

/// Rebuilds the bit lengths of the code-length alphabet, and their
/// number, from the events of `codec` and from what is predicted for the
/// run-length encoding `lengths`.
fn recreate_code_tree<D: PredictionDecoder>(
    codec: &mut D,
    huffcalc: HufftreeBitCalc,
    lengths: &[(TreeCodeType, u8)],
) -> (r: Result<(usize, [u8; 19]), PreflateError>)
    requires
        rle_entries_wf(lengths@),
    ensures
        extends(final(codec).consumed(), old(codec).consumed()),
        final(codec).script() == old(codec).script(),
        old(codec).inv() ==> final(codec).inv(),
        final(codec).consumed().len() > old(codec).consumed().len(),
        forall|ev2: Seq<CodecAction>|
            extends(ev2, final(codec).consumed()) ==> (#[trigger] decode_code_tree(
                huffcalc,
                lengths@,
                ev2,
                old(codec).consumed().len() as int,
            )) == (match r {
                Ok(tree) => Ok::<DecodedCodeTree, PreflateError>(
                    DecodedCodeTree {
                        code_lengths: tree.1@,
                        num_code_lengths: tree.0 as int,
                        end: final(codec).consumed().len() as int,
                    },
                ),
                Err(e) => Err::<DecodedCodeTree, PreflateError>(e),
            }),
        r matches Ok(tree) ==> {
            &&& 4 <= tree.0 <= 19
            &&& forall|j: int| 0 <= j < 19 ==> #[trigger] tree.1@[j] <= 7
            &&& forall|j: int| tree.0 <= j < 19 ==> tree.1@[#[trigger] tree_code_order()[j] as int] == 0
        },
        !(r matches Err(PreflateError::EventsOutOfStep)),
{
    reveal(decode_code_tree);
    let ghost at = old(codec).consumed().len() as int;
    let codetree_freq: [u16; 19] = calc_codetree_freq(lengths);
    let predicted: Vec<u8> = calc_bit_lengths(huffcalc, codetree_freq.as_slice(), 7);
    let tc_code_tree: Vec<u8> = resize_lengths(&predicted, 19);
    let tc_code_tree_len: usize = calc_tc_lengths_without_trailing_zeros(tc_code_tree.as_slice());
    let num_code_lengths: usize = decode_count_value(
        codec,
        CodecMisprediction::TreeCodeCountMisprediction,
        tc_code_tree_len,
        4,
        4,
    );
    let ghost c4 = codec.consumed();
    if num_code_lengths < 4 || num_code_lengths > 19 {
        proof {
            assert forall|ev2: Seq<CodecAction>| extends(ev2, c4) implies (
            #[trigger] decode_code_tree(huffcalc, lengths@, ev2, at)) == Err::<
                DecodedCodeTree,
                PreflateError,
            >(PreflateError::InvalidHeader) by {
                lemma_counts_extend(ev2, c4, at);
            }
        }
        return Err(PreflateError::InvalidHeader);
    }
    let r: Result<[u8; 19], PreflateError> = recreate_code_lengths(
        codec,
        tc_code_tree.as_slice(),
        num_code_lengths,
    );
    proof {
        let ev = codec.consumed();
        assert forall|ev2: Seq<CodecAction>| extends(ev2, ev) implies (#[trigger] decode_code_tree(
            huffcalc,
            lengths@,
            ev2,
            at,
        )) == (match r {
            Ok(code_lengths) => Ok::<DecodedCodeTree, PreflateError>(
                DecodedCodeTree {
                    code_lengths: code_lengths@,
                    num_code_lengths: num_code_lengths as int,
                    end: ev.len() as int,
                },
            ),
            Err(e) => Err::<DecodedCodeTree, PreflateError>(e),
        }) by {
            assert(extends(ev2, c4));
            lemma_counts_extend(ev2, c4, at);
            assert(decode_code_lengths(
                tc_code_tree@,
                ev2,
                c4.len() as int,
                num_code_lengths as int,
            ) is Ok == r is Ok);
        }
    }
    match r {
        Ok(code_lengths) => Ok((num_code_lengths, code_lengths)),
        Err(e) => Err(e),
    }
}

/// What a rebuilding that gave `r` and ended at the place `end` made of
/// the events.
pub open spec fn header_outcome(r: Result<HuffmanOriginalEncoding, PreflateError>, end: int) -> Result<
    DecodedHeader,
    PreflateError,
> {
    match r {
        Ok(header) => Ok(DecodedHeader { header: header@, end }),
        Err(e) => Err(e),
    }
}

/// Rebuilds the header of a block from the events of `codec` and the
/// header that is predicted from the symbol counts `freq` of the block.
/// What is rebuilt is what the events taken describe, in whatever
/// sequence of events they stand first; each event is asked for by the
/// kind and width that the description has at its place, so the
/// rebuilding itself is never out of step.
#[verifier::rlimit(30)]
pub fn recreate_tree_for_block<D: PredictionDecoder>(
    freq: &TokenFrequency,
    codec: &mut D,
    huffcalc: HufftreeBitCalc,
) -> (r: Result<HuffmanOriginalEncoding, PreflateError>)
    ensures
        extends(final(codec).consumed(), old(codec).consumed()),
        final(codec).script() == old(codec).script(),
        old(codec).inv() ==> final(codec).inv(),
        final(codec).consumed().len() > old(codec).consumed().len(),
        forall|ev2: Seq<CodecAction>|
            extends(ev2, final(codec).consumed()) ==> (#[trigger] decode_header(
                freq@,
                huffcalc,
                ev2,
                old(codec).consumed().len() as int,
            )) == header_outcome(r, final(codec).consumed().len() as int),
        r matches Ok(header) ==> header@.wf(),
        !(r matches Err(PreflateError::EventsOutOfStep)),
{
    codec.decode_verify_state("tree", 0);
    let ghost at = old(codec).consumed().len() as int;
    let literals: Vec<u8> = calc_bit_lengths(huffcalc, freq.literal_codes.as_slice(), 15);
    let num_literals: usize = decode_count_value(
        codec,
        CodecMisprediction::LiteralCountMisprediction,
        literals.len(),
        257,
        5,
    );
    let ghost c1 = codec.consumed();
    if num_literals < 257 || num_literals > 286 {
        proof {
            assert forall|ev2: Seq<CodecAction>| extends(ev2, c1) implies (#[trigger] decode_header(
                freq@,
                huffcalc,
                ev2,
                at,
            )) == Err::<DecodedHeader, PreflateError>(PreflateError::InvalidHeader) by {
                lemma_counts_extend(ev2, c1, at);
            }
        }
        return Err(PreflateError::InvalidHeader);
    }
    let distances: Vec<u8> = calc_bit_lengths(huffcalc, freq.distance_codes.as_slice(), 15);
    let num_dist: usize = decode_count_value(
        codec,
        CodecMisprediction::DistanceCountMisprediction,
        distances.len(),
        1,
        5,
    );
    let ghost c2 = codec.consumed();
    if num_dist < 1 || num_dist > 30 {
        proof {
            assert forall|ev2: Seq<CodecAction>| extends(ev2, c2) implies (#[trigger] decode_header(
                freq@,
                huffcalc,
                ev2,
                at,
            )) == Err::<DecodedHeader, PreflateError>(PreflateError::InvalidHeader) by {
                assert(extends(ev2, c1));
                lemma_counts_extend(ev2, c1, at);
                lemma_counts_extend(ev2, c2, c1.len() as int);
            }
        }
        return Err(PreflateError::InvalidHeader);
    }
    let mut bit_lengths: Vec<u8> = resize_lengths(&literals, num_literals);
    let mut distance_code_lengths: Vec<u8> = resize_lengths(&distances, num_dist);
    // The bit lengths of both alphabets are encoded as one sequence.
    bit_lengths.append(&mut distance_code_lengths);
    let lengths: Vec<(TreeCodeType, u8)> = match reconstruct_ld_trees(
        codec,
        bit_lengths.as_slice(),
    ) {
        Ok(lengths) => lengths,
        Err(e) => {
            proof {
                let ev = codec.consumed();
                assert forall|ev2: Seq<CodecAction>| extends(ev2, ev) implies (
                #[trigger] decode_header(freq@, huffcalc, ev2, at)) == Err::<
                    DecodedHeader,
                    PreflateError,
                >(e) by {
                    assert(extends(ev2, c1));
                    assert(extends(ev2, c2));
                    lemma_counts_extend(ev2, c1, at);
                    lemma_counts_extend(ev2, c2, c1.len() as int);
                    assert(decode_ld(bit_lengths@, 0, None, ev2, c2.len() as int, Seq::empty())
                        is Err);
                }
            }
            return Err(e);
        },
    };
    let ghost c3 = codec.consumed();
    let tree: (usize, [u8; 19]) = match recreate_code_tree(codec, huffcalc, lengths.as_slice()) {
        Ok(tree) => tree,
        Err(e) => {
            proof {
                let ev = codec.consumed();
                assert forall|ev2: Seq<CodecAction>| extends(ev2, ev) implies (
                #[trigger] decode_header(freq@, huffcalc, ev2, at)) == Err::<
                    DecodedHeader,
                    PreflateError,
                >(e) by {
                    assert(extends(ev2, c1));
                    assert(extends(ev2, c2));
                    assert(extends(ev2, c3));
                    lemma_counts_extend(ev2, c1, at);
                    lemma_counts_extend(ev2, c2, c1.len() as int);
                    assert(decode_ld(bit_lengths@, 0, None, ev2, c2.len() as int, Seq::empty())
                        is Ok);
                    assert(decode_code_tree(huffcalc, lengths@, ev2, c3.len() as int) is Err);
                }
            }
            return Err(e);
        },
    };
    proof {
        let ev = codec.consumed();
        assert forall|ev2: Seq<CodecAction>| extends(ev2, ev) implies (#[trigger] decode_header(
            freq@,
            huffcalc,
            ev2,
            at,
        )) == Ok::<DecodedHeader, PreflateError>(
            DecodedHeader {
                header: HeaderModel {
                    lengths: lengths@,
                    code_lengths: tree.1@,
                    num_literals,
                    num_dist,
                    num_code_lengths: tree.0,
                },
                end: ev.len() as int,
            },
        ) by {
            assert(extends(ev2, c1));
            assert(extends(ev2, c2));
            assert(extends(ev2, c3));
            lemma_counts_extend(ev2, c1, at);
            lemma_counts_extend(ev2, c2, c1.len() as int);
            assert(decode_ld(bit_lengths@, 0, None, ev2, c2.len() as int, Seq::empty()) is Ok);
            assert(decode_code_tree(huffcalc, lengths@, ev2, c3.len() as int) is Ok);
        }
    }
    Ok(
        HuffmanOriginalEncoding {
            lengths,
            code_lengths: tree.1,
            num_literals,
            num_dist,
            num_code_lengths: tree.0,
        },
    )
}

/// A count of the header depends on its own events only.
pub proof fn lemma_counts_extend(longer: Seq<CodecAction>, events: Seq<CodecAction>, at: int)
    requires
        extends(longer, events),
        0 <= at,
        at + count_used(events, at) <= events.len(),
    ensures
        count_used(longer, at) == count_used(events, at),
        forall|predicted: int, base: int| #[trigger]
            decode_count(predicted, base, longer, at) == decode_count(predicted, base, events, at),
        forall|kind: CodecMisprediction, bits: u8| #[trigger]
            count_in_step(kind, bits, longer, at) == count_in_step(kind, bits, events, at),
{
    lemma_extends_at(longer, events, at);
    if misprediction_at(events, at) {
        lemma_extends_at(longer, events, at + 1);
    }
}

/// The number of bit lengths that are transmitted is the smallest that
/// leaves out zeros only: no number from 4 on with nothing but zeros
/// behind it in the order of transmission is smaller.
pub proof fn lemma_strip_minimal(bit_lengths: Seq<u8>, from: int, n: int)
    requires
        bit_lengths.len() == 19,
        4 <= n <= from <= 19,
        forall|i: int| n <= i < 19 ==> bit_lengths[#[trigger] tree_code_order()[i] as int] == 0,
    ensures
        4 <= strip_from(bit_lengths, from) <= n,
        forall|i: int|
            strip_from(bit_lengths, from) <= i < from ==> bit_lengths[#[trigger] tree_code_order()[i] as int]
                == 0,
        strip_from(bit_lengths, from) > 4 ==> bit_lengths[tree_code_order()[strip_from(
            bit_lengths,
            from,
        ) - 1] as int] != 0,
    decreases from,
{
    if from > n {
        assert(bit_lengths[tree_code_order()[from - 1] as int] == 0);
        lemma_strip_minimal(bit_lengths, from - 1, n);
    } else if from > 4 && bit_lengths[tree_code_order()[from - 1] as int] == 0 {
        lemma_strip_minimal(bit_lengths, from - 1, from - 1);
    }
}

} // verus!
